//! Bringing run records in line with the tasks that they started.
use vstd::prelude::*;
use vstd::string::*;

use crate::automation::{
    advance_last_run_at, is_terminal_run_status, later_of, max_time, AutomationRecord,
    AutomationRunRecord, AutomationRunStatus,
};
use crate::task::{copy_text_opt, TaskRecord, TaskStatus};
use crate::text::{same_text, text_opt};
use crate::time::Timestamp;

verus! {

/// How far a task has come, as far as its run record says so.
#[derive(Debug)]
pub struct TaskProgress {
    pub status: TaskStatus,
    pub started_at: Option<Timestamp>,
    pub ended_at: Option<Timestamp>,
    pub thread_id: Option<String>,
    pub turn_id: Option<String>,
    pub error: Option<String>,
}

/// `p` says how far `task` has come.
pub open spec fn is_progress_of(p: TaskProgress, task: TaskRecord) -> bool {
    &&& p.status == task.status
    &&& p.started_at == task.started_at
    &&& p.ended_at == task.ended_at
    &&& text_opt(p.thread_id) == text_opt(task.thread_id)
    &&& text_opt(p.turn_id) == text_opt(task.turn_id)
    &&& text_opt(p.error) == text_opt(task.error)
}

impl TaskProgress {
    /// How far `task` has come.
    pub fn of(task: &TaskRecord) -> (r: Self)
        ensures
            is_progress_of(r, *task),
    {
        TaskProgress {
            status: task.status,
            started_at: task.started_at,
            ended_at: task.ended_at,
            thread_id: copy_text_opt(&task.thread_id),
            turn_id: copy_text_opt(&task.turn_id),
            error: copy_text_opt(&task.error),
        }
    }
}

/// The status of a run whose task has this status.
pub open spec fn run_status_of(status: TaskStatus) -> AutomationRunStatus {
    match status {
        TaskStatus::Queued => AutomationRunStatus::Queued,
        TaskStatus::Running => AutomationRunStatus::Running,
        TaskStatus::Completed => AutomationRunStatus::Completed,
        TaskStatus::Failed => AutomationRunStatus::Failed,
        TaskStatus::Canceled => AutomationRunStatus::Canceled,
    }
}

/// The status of a run whose task has this status.
pub fn run_status(status: TaskStatus) -> (r: AutomationRunStatus)
    ensures
        r == run_status_of(status),
{
    match status {
        TaskStatus::Queued => AutomationRunStatus::Queued,
        TaskStatus::Running => AutomationRunStatus::Running,
        TaskStatus::Completed => AutomationRunStatus::Completed,
        TaskStatus::Failed => AutomationRunStatus::Failed,
        TaskStatus::Canceled => AutomationRunStatus::Canceled,
    }
}

/// The first of two times that is there.
pub open spec fn first_time(a: Option<Timestamp>, b: Option<Timestamp>) -> Option<Timestamp> {
    if a is Some {
        a
    } else {
        b
    }
}

/// A time, or `now` where it is not known.
pub open spec fn time_or(a: Option<Timestamp>, now: Timestamp) -> Timestamp {
    match a {
        Some(t) => t,
        None => now,
    }
}

fn same_text_opt(a: &Option<String>, b: &Option<String>) -> (r: bool)
    ensures
        r == (text_opt(*a) == text_opt(*b)),
{
    match a {
        Some(x) => match b {
            Some(y) => same_text(x.as_str(), y.as_str()),
            None => false,
        },
        None => b.is_none(),
    }
}

/// Whether a run has the same links as its task.
pub open spec fn same_links(run: AutomationRunRecord, task: TaskProgress) -> bool {
    text_opt(run.thread_id) == text_opt(task.thread_id) && text_opt(run.turn_id) == text_opt(
        task.turn_id,
    )
}

/// What becomes of a run that has not ended, given its task.
pub open spec fn follows_task(
    run: AutomationRunRecord,
    task: TaskProgress,
    now: Timestamp,
    new: AutomationRunRecord,
    changed: bool,
) -> bool {
    &&& new.schema_version == run.schema_version && new.id == run.id && new.automation_id
        == run.automation_id
    &&& new.scheduled_for == run.scheduled_for && new.created_at == run.created_at && new.task_id
        == run.task_id
    &&& text_opt(new.thread_id) == text_opt(task.thread_id)
    &&& text_opt(new.turn_id) == text_opt(task.turn_id)
    &&& new.status == run_status_of(task.status)
    &&& match task.status {
        TaskStatus::Queued => {
            &&& new.started_at == run.started_at && new.ended_at == run.ended_at && new.error
                == run.error
            &&& changed == (!same_links(run, task) || run.status !is Queued)
        },
        TaskStatus::Running => {
            &&& new.started_at == Some(time_or(run.started_at, time_or(task.started_at, now)))
            &&& new.ended_at == run.ended_at && new.error == run.error
            &&& changed == (!same_links(run, task) || run.status !is Running
                || run.started_at is None)
        },
        _ => {
            &&& changed
            &&& new.started_at == first_time(run.started_at, task.started_at)
            &&& new.ended_at == Some(time_or(task.ended_at, now))
            &&& text_opt(new.error) == match task.status {
                TaskStatus::Completed => None,
                TaskStatus::Failed => text_opt(task.error),
                _ => text_opt(run.error),
            }
        },
    }
}

/// Brings a run that has not ended in line with its task, and says whether that
/// changed it.
pub fn follow_task(run: AutomationRunRecord, task: &TaskProgress, now: Timestamp) -> (r: (
    AutomationRunRecord,
    bool,
))
    ensures
        follows_task(run, *task, now, r.0, r.1),
{
    let mut out = run;
    let mut changed = false;
    if !same_text_opt(&out.thread_id, &task.thread_id) || !same_text_opt(
        &out.turn_id,
        &task.turn_id,
    ) {
        out.thread_id = copy_text_opt(&task.thread_id);
        out.turn_id = copy_text_opt(&task.turn_id);
        changed = true;
    }
    match task.status {
        TaskStatus::Queued => {
            if out.status != AutomationRunStatus::Queued {
                out.status = AutomationRunStatus::Queued;
                changed = true;
            }
        },
        TaskStatus::Running => {
            if out.status != AutomationRunStatus::Running {
                out.status = AutomationRunStatus::Running;
                changed = true;
            }
            if out.started_at.is_none() {
                out.started_at = Some(
                    match task.started_at {
                        Some(t) => t,
                        None => now,
                    },
                );
                changed = true;
            }
        },
        TaskStatus::Completed | TaskStatus::Failed | TaskStatus::Canceled => {
            out.status = run_status(task.status);
            if out.started_at.is_none() {
                out.started_at = task.started_at;
            }
            out.ended_at = Some(
                match task.ended_at {
                    Some(t) => t,
                    None => now,
                },
            );
            match task.status {
                TaskStatus::Completed => {
                    out.error = None;
                },
                TaskStatus::Failed => {
                    out.error = copy_text_opt(&task.error);
                },
                _ => {},
            }
            changed = true;
        },
    }
    (out, changed)
}

/// The task that has to be looked up to settle a run.
pub fn task_to_look_up(run: &AutomationRunRecord) -> (r: Option<&str>)
    ensures
        match r {
            Some(id) => !run.status.terminal() && text_opt(run.task_id) == Some(id@),
            None => run.status.terminal() || run.task_id is None,
        },
{
    if is_terminal_run_status(run.status) {
        return None;
    }
    match &run.task_id {
        Some(id) => Some(id.as_str()),
        None => None,
    }
}

/// A run with what was found of its task.
#[derive(Debug)]
pub struct ObservedRun {
    pub run: AutomationRunRecord,
    /// How far the task has come; nothing where there is none or it is unknown.
    pub task: Option<TaskProgress>,
}

/// What one run comes to.
pub struct RunStep {
    pub run: AutomationRunRecord,
    /// The record has to be stored.
    pub saved: bool,
    /// When the run ended, where it did.
    pub terminal_at: Option<Timestamp>,
}

/// What one run comes to.
pub open spec fn is_step(seen: ObservedRun, now: Timestamp, step: RunStep) -> bool {
    let run = seen.run;
    if run.status.terminal() {
        &&& step.saved == (run.ended_at is None)
        &&& step.terminal_at == Some(time_or(run.ended_at, now))
        &&& step.run == (AutomationRunRecord { ended_at: Some(time_or(run.ended_at, now)), ..run })
    } else if run.task_id is None || seen.task is None {
        step.run == run && !step.saved && step.terminal_at is None
    } else {
        &&& follows_task(run, seen.task->Some_0, now, step.run, step.saved)
        &&& step.terminal_at == if step.run.status.terminal() {
            Some(time_or(step.run.ended_at, now))
        } else {
            None
        }
    }
}

/// The records that have to be stored, in order.
pub open spec fn records_to_save(steps: Seq<RunStep>) -> Seq<AutomationRunRecord>
    decreases steps.len(),
{
    if steps.len() == 0 {
        Seq::empty()
    } else {
        let before = records_to_save(steps.drop_last());
        if steps.last().saved {
            before.push(steps.last().run)
        } else {
            before
        }
    }
}

/// When the last of the runs ended.
pub open spec fn latest_end(latest: Option<Timestamp>, steps: Seq<RunStep>) -> Option<Timestamp>
    decreases steps.len(),
{
    if steps.len() == 0 {
        latest
    } else {
        let before = latest_end(latest, steps.drop_last());
        match steps.last().terminal_at {
            Some(t) => Some(later_of(before, t)),
            None => before,
        }
    }
}

/// What the runs of an automation come to.
#[derive(Debug)]
pub struct ReconcilePlan {
    /// The records that have to be stored, in order.
    pub saves: Vec<AutomationRunRecord>,
    /// When the last of the runs ended.
    pub latest_terminal_at: Option<Timestamp>,
}

/// The steps of a plan, one for each run.
pub open spec fn are_steps(steps: Seq<RunStep>, seen: Seq<ObservedRun>, now: Timestamp) -> bool {
    &&& steps.len() == seen.len()
    &&& forall|i: int| 0 <= i < seen.len() ==> is_step(seen[i], now, #[trigger] steps[i])
}

/// What [`reconcile_runs`] makes of the runs.
pub open spec fn is_plan(
    seen: Seq<ObservedRun>,
    now: Timestamp,
    latest: Option<Timestamp>,
    plan: ReconcilePlan,
) -> bool {
    exists|steps: Seq<RunStep>| #[trigger]
        are_steps(steps, seen, now) && plan.saves@ == records_to_save(steps)
            && plan.latest_terminal_at == latest_end(latest, steps)
}

/// Brings the runs of an automation in line with their tasks. `latest` is when the last
/// of the automation's other runs ended.
pub fn reconcile_runs(seen: Vec<ObservedRun>, now: Timestamp, latest: Option<Timestamp>) -> (r:
    ReconcilePlan)
    ensures
        is_plan(seen@, now, latest, r),
{
    let ghost all = seen@;
    let ghost mut steps: Seq<RunStep> = Seq::empty();
    let mut rest = seen;
    let mut saves: Vec<AutomationRunRecord> = Vec::new();
    let mut latest_terminal_at = latest;
    while rest.len() > 0
        invariant
            rest@.len() + steps.len() == all.len(),
            rest@ == all.skip(steps.len() as int),
            forall|i: int| 0 <= i < steps.len() ==> is_step(all[i], now, #[trigger] steps[i]),
            saves@ == records_to_save(steps),
            latest_terminal_at == latest_end(latest, steps),
        decreases rest@.len(),
    {
        let ghost before = steps;
        let ghost done = steps.len() as int;
        let first = rest.remove(0);
        assert(first == all[done]);
        let ghost seen_run = first.run;
        if is_terminal_run_status(first.run.status) {
            match first.run.ended_at {
                Some(t) => {
                    latest_terminal_at = Some(max_time(latest_terminal_at, t));
                    proof {
                        let same = AutomationRunRecord { ended_at: Some(t), ..seen_run };
                        assert(same == seen_run);
                        steps = steps.push(
                            RunStep { run: seen_run, saved: false, terminal_at: Some(t) },
                        );
                        assert(steps.drop_last() =~= before);
                    }
                },
                None => {
                    let mut run = first.run;
                    run.ended_at = Some(now);
                    latest_terminal_at = Some(max_time(latest_terminal_at, now));
                    proof {
                        steps = steps.push(RunStep { run, saved: true, terminal_at: Some(now) });
                        assert(steps.drop_last() =~= before);
                    }
                    saves.push(run);
                },
            }
        } else if first.run.task_id.is_none() || first.task.is_none() {
            proof {
                steps = steps.push(RunStep { run: seen_run, saved: false, terminal_at: None });
                assert(steps.drop_last() =~= before);
            }
        } else if let Some(task) = &first.task {
            let (run, changed) = follow_task(first.run, task, now);
            let ended = is_terminal_run_status(run.status);
            let terminal_at = if ended {
                Some(
                    match run.ended_at {
                        Some(t) => t,
                        None => now,
                    },
                )
            } else {
                None
            };
            proof {
                steps = steps.push(RunStep { run, saved: changed, terminal_at });
                assert(steps.drop_last() =~= before);
            }
            if let Some(t) = terminal_at {
                latest_terminal_at = Some(max_time(latest_terminal_at, t));
            }
            if changed {
                saves.push(run);
            }
        }
        proof {
            assert(rest@ =~= all.skip(done + 1));
            assert(steps.len() == done + 1);
            assert forall|i: int| 0 <= i < steps.len() implies is_step(
                all[i],
                now,
                #[trigger] steps[i],
            ) by {
                if i < done {
                    assert(steps[i] == before[i]);
                }
            }
        }
    }
    assert(are_steps(steps, all, now));
    ReconcilePlan { saves, latest_terminal_at }
}

/// Notes on an automation when its last run ended. The flag says whether that changed
/// the record.
pub fn settle_last_run(
    automation: AutomationRecord,
    terminal_at: Timestamp,
    now: Timestamp,
) -> (r: (AutomationRecord, bool))
    ensures
        r.1 == (automation.last_run_at != Some(later_of(automation.last_run_at, terminal_at))),
        r.0 == if r.1 {
            AutomationRecord {
                last_run_at: Some(later_of(automation.last_run_at, terminal_at)),
                updated_at: now,
                ..automation
            }
        } else {
            automation
        },
{
    let mut out = automation;
    let previous = out.last_run_at;
    advance_last_run_at(&mut out, Some(terminal_at));
    let changed = out.last_run_at != previous;
    if changed {
        out.updated_at = now;
    }
    (out, changed)
}

// Laws -----------------------------------------------------------------------
/// A run that has ended keeps its status and its end; a run that has not takes on the
/// status of its task, and an end with it.
pub proof fn runs_follow_their_tasks(seen: ObservedRun, now: Timestamp, step: RunStep)
    requires
        is_step(seen, now, step),
    ensures
        step.run.id == seen.run.id && step.run.automation_id == seen.run.automation_id,
        step.run.scheduled_for == seen.run.scheduled_for && step.run.created_at
            == seen.run.created_at,
        seen.run.status.terminal() ==> step.run.status == seen.run.status && (
        seen.run.ended_at is Some ==> step.run == seen.run),
        !seen.run.status.terminal() && seen.run.task_id is Some && seen.task is Some
            ==> step.run.status == run_status_of(seen.task->Some_0.status),
        step.run.status.terminal() ==> step.run.ended_at is Some && step.terminal_at
            == step.run.ended_at,
        !step.saved ==> step.run.status == seen.run.status && step.run.ended_at == seen.run.ended_at,
{
}

/// Reconciling again, at whatever time, with nothing new to be seen stores nothing and leaves
/// the run and its end as they are.
pub proof fn reconciling_settles(
    seen: ObservedRun,
    now: Timestamp,
    step: RunStep,
    later: Timestamp,
    again: RunStep,
)
    requires
        is_step(seen, now, step),
        is_step(ObservedRun { run: step.run, task: seen.task }, later, again),
    ensures
        !again.saved,
        again.terminal_at == step.terminal_at,
        again.run.status == step.run.status,
        again.run.ended_at == step.run.ended_at,
        again.run.started_at == step.run.started_at,
        again.run.task_id == step.run.task_id,
        text_opt(again.run.error) == text_opt(step.run.error),
        text_opt(again.run.thread_id) == text_opt(step.run.thread_id),
        text_opt(again.run.turn_id) == text_opt(step.run.turn_id),
        again.run.id == step.run.id && again.run.automation_id == step.run.automation_id,
        again.run.scheduled_for == step.run.scheduled_for,
        again.run.created_at == step.run.created_at,
        again.run.schema_version == step.run.schema_version,
{
}

/// The noted end of an automation's runs never moves back.
pub proof fn latest_end_never_moves_back(latest: Option<Timestamp>, steps: Seq<RunStep>)
    ensures
        latest matches Some(t) ==> (latest_end(latest, steps) matches Some(u) && t.at_or_before(u)),
        forall|i: int|
            #![trigger steps[i]]
            0 <= i < steps.len() && steps[i].terminal_at is Some ==> (latest_end(latest, steps)
                matches Some(u) && steps[i].terminal_at->Some_0.at_or_before(u)),
    decreases steps.len(),
{
    if steps.len() > 0 {
        let init = steps.drop_last();
        latest_end_never_moves_back(latest, init);
        assert forall|i: int|
            #![trigger steps[i]]
            0 <= i < steps.len() && steps[i].terminal_at is Some implies (latest_end(latest, steps)
            matches Some(u) && steps[i].terminal_at->Some_0.at_or_before(u)) by {
            if i < init.len() {
                assert(init[i] == steps[i]);
            }
        }
    }
}

} // verus!
