//! The task of an automation's run: how it is asked for, and what its run and its
//! automation record of it.
use vstd::prelude::*;
use vstd::string::*;

use crate::automation::{
    advance_last_run_at, is_terminal_run_status, later_of, AutomationRecord, AutomationRunRecord,
    AutomationRunStatus,
};
use crate::reconcile::{run_status, run_status_of, time_or, TaskProgress};
use crate::task::{copy_text_opt, NewTaskRequest};
use crate::text::{copy_text, join2, text_opt};
use crate::time::Timestamp;

verus! {

/// The request for the task of an automation's run.
pub open spec fn is_task_request(req: NewTaskRequest, automation: AutomationRecord) -> bool {
    &&& req.prompt@ == automation.prompt@
    &&& text_opt(req.model) == text_opt(automation.model)
    &&& text_opt(req.workspace) == if automation.cwds@.len() > 0 {
        Some(automation.cwds@[0]@)
    } else {
        None
    }
    &&& text_opt(req.mode) == Some(automation.task_mode_spec())
    &&& req.allow_shell == Some(automation.allow_shell == Some(true))
    &&& req.trust_mode == Some(automation.trust_mode == Some(true))
    &&& req.auto_approve == Some(automation.auto_approve == Some(true))
}

/// The request for the task of an automation's run.
pub fn task_request_for(automation: &AutomationRecord) -> (r: NewTaskRequest)
    ensures
        is_task_request(r, *automation),
{
    NewTaskRequest {
        prompt: copy_text(automation.prompt.as_str()),
        model: copy_text_opt(&automation.model),
        workspace: if automation.cwds.len() > 0 {
            Some(copy_text(automation.cwds[0].as_str()))
        } else {
            None
        },
        mode: Some(automation.task_mode()),
        allow_shell: Some(automation.task_allow_shell()),
        trust_mode: Some(automation.task_trust_mode()),
        auto_approve: Some(automation.task_auto_approve()),
    }
}

/// A task that was queued.
#[derive(Debug)]
pub struct QueuedTask {
    pub id: String,
    pub progress: TaskProgress,
}

/// What becomes of a run when its task has been queued, or could not be.
pub open spec fn is_enqueued(
    run: AutomationRunRecord,
    outcome: Result<QueuedTask, String>,
    now: Timestamp,
    new: AutomationRunRecord,
) -> bool {
    match outcome {
        Ok(task) => {
            &&& new == (AutomationRunRecord {
                status: run_status_of(task.progress.status),
                started_at: task.progress.started_at,
                ended_at: task.progress.ended_at,
                task_id: new.task_id,
                thread_id: new.thread_id,
                turn_id: new.turn_id,
                error: new.error,
                ..run
            })
            &&& text_opt(new.task_id) == Some(task.id@)
            &&& text_opt(new.thread_id) == text_opt(task.progress.thread_id)
            &&& text_opt(new.turn_id) == text_opt(task.progress.turn_id)
            &&& text_opt(new.error) == text_opt(task.progress.error)
        },
        Err(why) => {
            &&& new == (AutomationRunRecord {
                status: AutomationRunStatus::Failed,
                ended_at: Some(now),
                error: new.error,
                ..run
            })
            &&& text_opt(new.error) == Some("Failed to enqueue task: "@ + why@)
        },
    }
}

/// Notes on a run what became of its task.
pub fn record_enqueue(
    run: &mut AutomationRunRecord,
    outcome: Result<QueuedTask, String>,
    now: Timestamp,
)
    ensures
        is_enqueued(*old(run), outcome, now, *final(run)),
{
    match outcome {
        Ok(task) => {
            run.status = run_status(task.progress.status);
            run.started_at = task.progress.started_at;
            run.ended_at = task.progress.ended_at;
            run.task_id = Some(task.id);
            run.thread_id = task.progress.thread_id;
            run.turn_id = task.progress.turn_id;
            run.error = task.progress.error;
        },
        Err(why) => {
            run.status = AutomationRunStatus::Failed;
            run.ended_at = Some(now);
            run.error = Some(join2("Failed to enqueue task: ", why.as_str()));
        },
    }
}

/// What becomes of an automation when a run by hand has been queued or has ended.
pub open spec fn after_manual(
    automation: AutomationRecord,
    run: AutomationRunRecord,
    now: Timestamp,
) -> AutomationRecord {
    AutomationRecord {
        updated_at: now,
        last_run_at: if run.status.terminal() {
            Some(later_of(automation.last_run_at, time_or(run.ended_at, now)))
        } else {
            automation.last_run_at
        },
        ..automation
    }
}

/// Notes on an automation that a run by hand has been queued or has ended.
pub fn settle_manual(automation: &mut AutomationRecord, run: &AutomationRunRecord, now: Timestamp)
    ensures
        *final(automation) == after_manual(*old(automation), *run, now),
{
    automation.updated_at = now;
    if is_terminal_run_status(run.status) {
        let ended = match run.ended_at {
            Some(t) => t,
            None => now,
        };
        advance_last_run_at(automation, Some(ended));
    }
}

} // verus!
