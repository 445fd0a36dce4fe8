//! What comes of a task, field by field: from the request for it to its end, and when its record
//! is read back.
use vstd::prelude::*;
use vstd::string::*;

use crate::automation::AutomationRecord;
use crate::enqueue::is_task_request;
use crate::failure::Failure;
use crate::journal_laws::{ManualMove, ResumeMove};
use crate::json::{field, json_text, Json};
use crate::manual_run::ManualAction;
use crate::queueing_laws::same_words;
use crate::resumption::ResumeAction;
use crate::schedule::Zone;
use crate::scheduler::TickAction;
use crate::scheduler_laws::TickStep;
use crate::task::{
    artifact_name, clamped, is_reporting_failure, is_request_for, is_summary_of, is_task_mode, left_out,
    sanitized, stored_task_mode, summary_of, summary_within, ExecutionTask, NewTaskRequest,
    TaskArtifactRef, TaskAttemptRecord, TaskChecklistState, TaskExecutionEvent,
    TaskExecutionReportError, TaskExecutionResult, TaskGateRecord, TaskGithubEvent,
    TaskManagerConfig, TaskRecord, TaskStatus, TaskSummary, TaskTimelineEntry, TaskToolCallSummary,
    ARTIFACT_THRESHOLD, DEFAULT_WORKERS, MAX_WORKERS, TIMELINE_SUMMARY_LIMIT,
};
use crate::task_events::{
    call_ended, call_index, event_applied, is_cancel, is_finished, is_settled, is_started,
    CancelEffect,
};
use crate::task_recovery::is_recovered;
use crate::task_store::{
    asks_for_new_task, existing_task, is_new_task, is_random_task_id, is_task_plan,
    new_task_or_refusal, request_fault, task_under, AddPlan, ManagerModel,
    MAX_TASK_ID_GENERATION_ATTEMPTS,
};
use crate::task_updates::{
    artifact_applied, attempt_applied, checklist_applied, gate_applied, github_applied,
    items_of, part, update_applied, update_fault, TaskUpdates,
};
use crate::text::{dec, lower, trimmed};
use crate::time::{checked_duration_millis, duration_millis, Timestamp};

verus! {

// Durations ------------------------------------------------------------------
/// A duration counts whole milliseconds, and none where the end is not after the start.
pub proof fn durations_count_whole_milliseconds(start: Timestamp, end: Timestamp)
    requires
        start.wf(),
        end.wf(),
    ensures
        ({
            let gap = end.secs * 1_000_000_000 + end.nanos - (start.secs * 1_000_000_000
                + start.nanos);
            let ms = duration_millis(start, end);
            &&& gap <= 0 ==> ms == 0
            &&& gap > 0 ==> ms * 1_000_000 <= gap < (ms + 1) * 1_000_000
            &&& gap <= -1_000_000 ==> checked_duration_millis(start, end) is None
            &&& gap > -1_000_000 ==> checked_duration_millis(start, end) == Some(ms as u64)
            &&& 0 <= ms <= u64::MAX
        }),
{
}

// The timeline ---------------------------------------------------------------
/// A timeline grew by one line, at its end.
pub open spec fn grows_by(
    before: Seq<TaskTimelineEntry>,
    after: Seq<TaskTimelineEntry>,
    at: Timestamp,
    kind: Seq<char>,
    words: Seq<char>,
    detail: Option<Seq<char>>,
) -> bool {
    &&& after.len() == before.len() + 1
    &&& after.take(before.len() as int) == before
    &&& after[before.len() as int].timestamp == at
    &&& after[before.len() as int].kind@ == kind
    &&& after[before.len() as int].summary@ == words
    &&& points_to(after[before.len() as int].detail_path, detail)
}

/// A line of a timeline points to a file just where there is one.
pub open spec fn points_to(path: Option<String>, detail: Option<Seq<char>>) -> bool {
    match path {
        Some(p) => detail == Some(p@),
        None => detail is None,
    }
}

// The request ----------------------------------------------------------------
/// A new task is what its request asks for: the prompt without white space round it, the model and
/// the directory asked for or else the defaults, the mode in small letters, each switch as asked
/// or else as configured, and approval only where asked for. It waits, and nothing has come of it.
pub proof fn new_tasks_are_what_was_asked_for(
    task: TaskRecord,
    req: NewTaskRequest,
    cfg: TaskManagerConfig,
    default_workspace: Seq<char>,
    key: Option<Seq<char>>,
    id: Seq<char>,
    now: Timestamp,
)
    requires
        is_new_task(task, req, cfg, default_workspace, key, id, now),
    ensures
        task.schema_version == 3,
        task.id@ == id,
        task.prompt@ == trimmed(req.prompt@),
        req.model matches Some(model) ==> task.model@ == model@,
        req.model is None ==> task.model@ == cfg.default_model@,
        req.workspace matches Some(dir) ==> task.workspace@ == dir@,
        req.workspace is None ==> task.workspace@ == default_workspace,
        req.mode matches Some(mode) ==> task.mode@ == lower(trimmed(mode@)),
        req.mode is None ==> task.mode@ == lower(trimmed(cfg.default_mode@)),
        req.allow_shell matches Some(on) ==> task.allow_shell == on,
        req.allow_shell is None ==> task.allow_shell == cfg.allow_shell,
        req.trust_mode matches Some(on) ==> task.trust_mode == on,
        req.trust_mode is None ==> task.trust_mode == cfg.trust_mode,
        req.auto_approve matches Some(on) ==> task.auto_approve == on,
        req.auto_approve is None ==> !task.auto_approve,
        match task.idempotency_key {
            Some(k) => key == Some(k@),
            None => key is None,
        },
        task.status is Queued,
        task.created_at == now,
        task.started_at is None && task.ended_at is None && task.duration_ms is None,
        task.result_summary is None && task.result_detail_path is None && task.error is None,
        task.thread_id is None && task.turn_id is None && task.runtime_event_count == 0,
        task.tool_calls@.len() == 0 && task.gates@.len() == 0 && task.attempts@.len() == 0
            && task.artifacts@.len() == 0 && task.github_events@.len() == 0,
        grows_by(Seq::empty(), task.timeline@, now, "queued"@, "Task queued"@, None),
{
    assert(task.timeline@.take(0) =~= Seq::empty());
}

/// The executor of a task is handed the task's own fields.
pub proof fn executors_are_handed_their_task(request: ExecutionTask, task: TaskRecord)
    requires
        is_request_for(request, task),
    ensures
        request.id@ == task.id@,
        request.prompt@ == task.prompt@,
        request.model@ == task.model@,
        request.workspace@ == task.workspace@,
        request.mode_label@ == task.mode@,
        request.allow_shell == task.allow_shell,
        request.trust_mode == task.trust_mode,
        request.auto_approve == task.auto_approve,
{
}

/// The short view of a task shows the task's own fields, and its prompt cut to its limit.
pub proof fn summaries_show_their_task(summary: TaskSummary, task: TaskRecord)
    requires
        is_summary_of(summary, task),
    ensures
        summary.id@ == task.id@,
        summary.status == task.status,
        summary.prompt_summary@ == summary_of(task.prompt@, 240),
        summary.model@ == task.model@,
        summary.mode@ == task.mode@,
        summary.created_at == task.created_at,
        summary.started_at == task.started_at,
        summary.ended_at == task.ended_at,
        summary.duration_ms == task.duration_ms,
        same_words(summary.error, task.error),
        same_words(summary.thread_id, task.thread_id),
        same_words(summary.turn_id, task.turn_id),
{
}

// Start, cancellation, end -----------------------------------------------------
/// A task that is taken up runs from now on, without an end, a duration or an error; all else
/// stays.
pub proof fn started_tasks_run_from_now(old: TaskRecord, now: Timestamp, new: TaskRecord)
    requires
        is_started(old, now, new),
    ensures
        new.status is Running,
        new.started_at == Some(now),
        new.ended_at is None && new.duration_ms is None && new.error is None,
        new == (TaskRecord {
            status: new.status,
            started_at: new.started_at,
            ended_at: new.ended_at,
            duration_ms: new.duration_ms,
            error: new.error,
            timeline: new.timeline,
            ..old
        }),
        grows_by(old.timeline@, new.timeline@, now, "running"@, "Task started"@, None),
{
    assert(new.timeline@.take(old.timeline@.len() as int) =~= new.timeline@.drop_last());
}

/// A waiting task that is canceled is over at once, after no time, and leaves the queue; a running
/// one is told to stop and goes on for now; one that is over stays as it is.
pub proof fn cancellation_depends_on_how_far_a_task_is(
    old: TaskRecord,
    now: Timestamp,
    new: TaskRecord,
    effect: CancelEffect,
)
    requires
        is_cancel(old, now, new, effect),
    ensures
        old.status is Queued ==> {
            &&& effect is LeaveQueue
            &&& new.status is Canceled && new.ended_at == Some(now) && new.duration_ms == Some(0u64)
            &&& new == (TaskRecord {
                status: new.status,
                ended_at: new.ended_at,
                duration_ms: new.duration_ms,
                timeline: new.timeline,
                ..old
            })
            &&& grows_by(
                old.timeline@,
                new.timeline@,
                now,
                "canceled"@,
                "Task canceled before execution"@,
                None,
            )
        },
        old.status is Running ==> {
            &&& effect is Signal
            &&& new == (TaskRecord { timeline: new.timeline, ..old })
            &&& grows_by(
                old.timeline@,
                new.timeline@,
                now,
                "cancel_requested"@,
                "Cancellation requested"@,
                None,
            )
        },
        old.status is Completed || old.status is Failed || old.status is Canceled
            ==> effect is Nothing && new == old,
{
    if new.timeline@.len() > 0 {
        assert(new.timeline@.take(new.timeline@.len() - 1) =~= new.timeline@.drop_last());
    }
}

/// A final result is kept as the executor gave it: only what a canceled task completed does not
/// count, and a result that is not final is a failure that says so.
pub proof fn final_results_are_kept(
    result: TaskExecutionResult,
    cancelled: bool,
    settled: TaskExecutionResult,
)
    requires
        is_settled(result, cancelled, settled),
    ensures
        result.status.terminal() && !(cancelled && result.status is Completed) ==> settled
            == result,
        result.status is Failed ==> settled.status is Failed && settled.error == result.error
            && settled.result_text == result.result_text,
        result.status is Canceled ==> settled == result,
        result.status is Completed && !cancelled ==> settled == result,
        result.status is Completed && cancelled ==> settled.status is Canceled
            && settled.result_text is None && settled.error is None,
        result.status is Queued ==> settled.status is Failed && settled.result_text
            == result.result_text && (settled.error matches Some(why) && why@
            == "Executor returned non-terminal task status: "@ + "Queued"@),
        result.status is Running ==> settled.status is Failed && settled.result_text
            == result.result_text && (settled.error matches Some(why) && why@
            == "Executor returned non-terminal task status: "@ + "Running"@),
{
}

/// A task is over when it is completed, failed or canceled, and not while it waits or runs.
pub proof fn tasks_are_over_in_three_ways(status: TaskStatus)
    ensures
        status.terminal() <==> status is Completed || status is Failed || status is Canceled,
        status is Queued || status is Running ==> !status.terminal(),
{
}

/// A task that ends has the status, the error and the text of its result, its end now, and the
/// time since it was taken up; what was asked for, and what came of its calls, stays.
pub proof fn ended_tasks_hold_their_result(
    old: TaskRecord,
    result: TaskExecutionResult,
    mode: Seq<char>,
    detail: Option<Seq<char>>,
    now: Timestamp,
    new: TaskRecord,
)
    requires
        is_finished(old, result, mode, detail, now, new),
    ensures
        new.status == result.status,
        new.mode@ == mode,
        new.ended_at == Some(now),
        same_words(new.error, result.error),
        old.started_at is None ==> new.duration_ms is None,
        old.started_at matches Some(start) ==> (new.duration_ms matches Some(ms) && ms as int
            == duration_millis(start, now)),
        result.result_text matches Some(text) ==> (new.result_summary matches Some(s) && s@
            == summary_of(text@, 240)),
        result.result_text is None && result.status is Completed ==> (
        new.result_summary matches Some(s) && s@ == "(no textual output)"@),
        result.result_text is None && result.status !is Completed ==> new.result_summary is None,
        match new.result_detail_path {
            Some(path) => detail == Some(path@),
            None => detail is None,
        },
        new == (TaskRecord {
            status: new.status,
            mode: new.mode,
            ended_at: new.ended_at,
            duration_ms: new.duration_ms,
            error: new.error,
            result_summary: new.result_summary,
            result_detail_path: new.result_detail_path,
            timeline: new.timeline,
            ..old
        }),
        new.timeline@.len() == old.timeline@.len() + (if detail is Some {
            2int
        } else {
            1
        }),
        new.timeline@.take(old.timeline@.len() as int) == old.timeline@,
        ({
            let line = new.timeline@[old.timeline@.len() as int];
            &&& line.kind@ == "finished"@ && line.timestamp == now && line.detail_path is None
            &&& result.status is Completed ==> line.summary@ == "Task completed"@
            &&& result.status is Canceled ==> line.summary@ == "Task canceled"@
            &&& result.status is Failed ==> match result.error {
                Some(why) => line.summary@ == "Task failed: "@ + summary_of(why@, 240),
                None => line.summary@ == "Task failed: "@ + "unknown error"@,
            }
        }),
        detail matches Some(path) ==> {
            let line = new.timeline@[old.timeline@.len() as int + 1];
            line.kind@ == "result_ref"@ && line.timestamp == now && line.summary@
                == "Result artifact: "@ + path && points_to(line.detail_path, detail)
        },
{
    let n = old.timeline@.len() as int;
    if detail is Some {
        let first = new.timeline@.drop_last();
        assert(first.drop_last() == old.timeline@);
        assert(new.timeline@.take(n) =~= first.drop_last());
        assert(new.timeline@[n] == first.last());
    } else {
        assert(new.timeline@.take(n) =~= new.timeline@.drop_last());
    }
}

// Reading back ---------------------------------------------------------------
/// The modes that a stored record may hold are agent, plan and yolo, or their old numbers.
pub proof fn stored_modes_are_three(mode: Seq<char>)
    ensures
        stored_task_mode(mode) == Some("agent"@) <==> lower(trimmed(mode)) == "agent"@ || lower(
            trimmed(mode),
        ) == "1"@,
        stored_task_mode(mode) == Some("plan"@) <==> lower(trimmed(mode)) == "plan"@ || lower(
            trimmed(mode),
        ) == "2"@,
        stored_task_mode(mode) == Some("yolo"@) <==> lower(trimmed(mode)) == "yolo"@ || lower(
            trimmed(mode),
        ) == "3"@,
        stored_task_mode(mode) is Some ==> is_task_mode(stored_task_mode(mode)->Some_0),
        is_task_mode(mode) <==> mode == "agent"@ || mode == "plan"@ || mode == "yolo"@,
        crate::automation::canonical_mode(mode) == stored_task_mode(mode),
        crate::automation::is_mode(mode) <==> is_task_mode(mode),
{
    lemma_modes_differ();
}

proof fn lemma_modes_differ()
    ensures
        "agent"@ != "plan"@ && "agent"@ != "yolo"@ && "plan"@ != "yolo"@,
        "1"@ != "2"@ && "1"@ != "3"@ && "2"@ != "3"@,
        "agent"@.len() == 5 && "plan"@.len() == 4 && "yolo"@.len() == 4,
        "1"@.len() == 1 && "2"@.len() == 1 && "3"@.len() == 1,
{
    reveal_strlit("agent");
    reveal_strlit("plan");
    reveal_strlit("yolo");
    reveal_strlit("1");
    reveal_strlit("2");
    reveal_strlit("3");
    assert("plan"@[0] == 'p' && "yolo"@[0] == 'y');
    assert("1"@[0] == '1' && "2"@[0] == '2' && "3"@[0] == '3');
}

/// A record that is read back keeps all of itself but the spelling of its mode, unless the task was
/// running or its mode is not known.
pub proof fn records_are_read_back_as_they_are(
    old: TaskRecord,
    now: Timestamp,
    new: TaskRecord,
    changed: bool,
)
    requires
        is_recovered(old, now, new, changed),
    ensures
        old.status !is Running && stored_task_mode(old.mode@) is Some ==> new == (TaskRecord {
            mode: new.mode,
            ..old
        }),
        stored_task_mode(old.mode@) is Some && (old.status is Queued || old.status is Completed
            || old.status is Failed || old.status is Canceled) ==> new.status == old.status
            && new.error == old.error && new.ended_at == old.ended_at && new.timeline
            == old.timeline && new.tool_calls == old.tool_calls,
        stored_task_mode(old.mode@) matches Some(mode) ==> new.mode@ == mode,
        old.status !is Running && stored_task_mode(old.mode@) is Some ==> (changed <==> new.mode@
            != old.mode@),
        old.status !is Running && stored_task_mode(old.mode@) is Some && !changed ==> new == old,
{
}

/// A task that was running when its process ended, or whose mode is not known, has failed by now,
/// and says why; its calls that still ran have failed with it. What it is, what was asked for and
/// what had come of it stays.
pub proof fn broken_off_tasks_fail(
    old: TaskRecord,
    now: Timestamp,
    new: TaskRecord,
    changed: bool,
)
    requires
        is_recovered(old, now, new, changed),
        old.status is Running || stored_task_mode(old.mode@) is None,
    ensures
        changed,
        new.status is Failed,
        new.ended_at == Some(now),
        new == (TaskRecord {
            mode: new.mode,
            status: new.status,
            ended_at: new.ended_at,
            duration_ms: new.duration_ms,
            error: new.error,
            tool_calls: new.tool_calls,
            timeline: new.timeline,
            ..old
        }),
        old.started_at is None ==> new.duration_ms is None,
        old.started_at matches Some(start) ==> new.duration_ms == checked_duration_millis(start, now),
        stored_task_mode(old.mode@) is None ==> {
            &&& new.mode@ == "agent"@
            &&& new.error matches Some(why) && why@ == "Invalid persisted task mode '"@ + old.mode@
                + "'. Expected one of: agent, plan, yolo"@ && grows_by(
                old.timeline@,
                new.timeline@,
                now,
                "recovered_invalid_mode"@,
                why@,
                None,
            )
        },
        stored_task_mode(old.mode@) is Some ==> {
            &&& new.error matches Some(why) && why@
                == "Interrupted by process restart; prior process is not attached"@ && grows_by(
                old.timeline@,
                new.timeline@,
                now,
                "recovered"@,
                why@,
                None,
            )
        },
        new.tool_calls@.len() == old.tool_calls@.len(),
        forall|i: int|
            0 <= i < old.tool_calls@.len() ==> {
                let a = old.tool_calls@[i];
                let b = #[trigger] new.tool_calls@[i];
                &&& a.status !is Running ==> b == a
                &&& a.status is Running ==> b.status is Failed && b.ended_at == Some(now) && b == (
                TaskToolCallSummary {
                    status: b.status,
                    ended_at: b.ended_at,
                    duration_ms: b.duration_ms,
                    ..a
                }) && b.duration_ms == (if new.duration_ms is Some {
                    new.duration_ms
                } else {
                    checked_duration_millis(a.started_at, now)
                })
            },
{
    assert(new.timeline@.take(old.timeline@.len() as int) =~= new.timeline@.drop_last());
}

// Events ---------------------------------------------------------------------
/// What an executor reports leaves its trace on the task: the thread and the turn it runs in, a
/// line for each status, message, progress and error, a call that begins, and a count of the
/// events of the runtime. Nothing else of the task changes.
pub proof fn events_leave_their_trace(
    old: TaskRecord,
    event: TaskExecutionEvent,
    now: Timestamp,
    detail: Option<Seq<char>>,
    updates: TaskUpdates,
    new: TaskRecord,
)
    requires
        event_applied(old, event, now, detail, updates, Ok(new)),
    ensures
        match event {
            TaskExecutionEvent::ThreadCreated { thread_id } => {
                &&& new == (TaskRecord { thread_id: new.thread_id, timeline: new.timeline, ..old })
                &&& new.thread_id matches Some(t) && t@ == thread_id@
                &&& grows_by(
                    old.timeline@,
                    new.timeline@,
                    now,
                    "runtime_thread"@,
                    "Linked runtime thread "@ + thread_id@,
                    None,
                )
            },
            TaskExecutionEvent::ThreadLinked { thread_id, turn_id } => {
                &&& new == (TaskRecord {
                    thread_id: new.thread_id,
                    turn_id: new.turn_id,
                    timeline: new.timeline,
                    ..old
                })
                &&& new.thread_id matches Some(t) && t@ == thread_id@
                &&& new.turn_id matches Some(u) && u@ == turn_id@
                &&& grows_by(
                    old.timeline@,
                    new.timeline@,
                    now,
                    "runtime_link"@,
                    "Linked runtime thread "@ + thread_id@ + " turn "@ + turn_id@,
                    None,
                )
            },
            TaskExecutionEvent::Status { message } => {
                &&& new == (TaskRecord { timeline: new.timeline, ..old })
                &&& grows_by(
                    old.timeline@,
                    new.timeline@,
                    now,
                    "status"@,
                    summary_of(message@, 240),
                    None,
                )
            },
            TaskExecutionEvent::MessageDelta { content } => if trimmed(content@).len() == 0 {
                new == old
            } else {
                &&& new == (TaskRecord { timeline: new.timeline, ..old })
                &&& grows_by(
                    old.timeline@,
                    new.timeline@,
                    now,
                    "message"@,
                    summary_of(content@, 240),
                    None,
                )
            },
            TaskExecutionEvent::ToolStarted { id, name, input: value } => {
                &&& new == (TaskRecord {
                    tool_calls: new.tool_calls,
                    timeline: new.timeline,
                    ..old
                })
                &&& new.tool_calls@.len() == old.tool_calls@.len() + 1
                &&& new.tool_calls@.take(old.tool_calls@.len() as int) == old.tool_calls@
                &&& new.tool_calls@.last().id@ == id@ && new.tool_calls@.last().name@ == name@
                &&& new.tool_calls@.last().status is Running
                &&& new.tool_calls@.last().started_at == now
                &&& new.tool_calls@.last().ended_at is None
                &&& new.tool_calls@.last().duration_ms is None
                &&& new.tool_calls@.last().output_summary is None
                &&& new.tool_calls@.last().detail_path is None
                &&& new.tool_calls@.last().patch_ref is None
                &&& new.tool_calls@.last().input_summary matches Some(input) && input@
                    == summary_of(json_text(value), 240) && grows_by(
                    old.timeline@,
                    new.timeline@,
                    now,
                    "tool_started"@,
                    name@ + " started ("@ + input@ + ")"@,
                    None,
                )
            },
            TaskExecutionEvent::ToolProgress { id, output } => {
                &&& new == (TaskRecord { timeline: new.timeline, ..old })
                &&& grows_by(
                    old.timeline@,
                    new.timeline@,
                    now,
                    "tool_progress"@,
                    id@ + ": "@ + summary_of(output@, 232),
                    None,
                )
            },
            TaskExecutionEvent::Error { message } => {
                &&& new == (TaskRecord { timeline: new.timeline, ..old })
                &&& grows_by(old.timeline@, new.timeline@, now, "error"@, summary_of(message@, 240), None)
            },
            TaskExecutionEvent::RuntimeEvent { seq, event: name, summary } => {
                &&& new == (TaskRecord {
                    runtime_event_count: new.runtime_event_count,
                    timeline: new.timeline,
                    ..old
                })
                &&& old.runtime_event_count < usize::MAX ==> new.runtime_event_count
                    == old.runtime_event_count + 1
                &&& old.runtime_event_count == usize::MAX ==> new.runtime_event_count == usize::MAX
                &&& grows_by(
                    old.timeline@,
                    new.timeline@,
                    now,
                    "runtime_event"@,
                    "#"@ + dec(seq as nat) + " "@ + name@ + ": "@ + summary@,
                    None,
                )
            },
            TaskExecutionEvent::ToolCompleted { .. } => true,
        },
{
    if new.timeline@.len() > 0 {
        assert(new.timeline@.take(new.timeline@.len() - 1) =~= new.timeline@.drop_last());
    }
    if new.tool_calls@.len() > 0 {
        assert(new.tool_calls@.take(new.tool_calls@.len() - 1) =~= new.tool_calls@.drop_last());
    }
}

proof fn lemma_call_index(calls: Seq<TaskToolCallSummary>, id: Seq<char>)
    ensures
        0 <= call_index(calls, id) <= calls.len(),
        forall|i: int| 0 <= i < call_index(calls, id) ==> (#[trigger] calls[i]).id@ != id,
        call_index(calls, id) < calls.len() ==> calls[call_index(calls, id)].id@ == id,
    decreases calls.len(),
{
    if calls.len() > 0 && calls[0].id@ != id {
        let rest = calls.drop_first();
        lemma_call_index(rest, id);
        let k = call_index(rest, id);
        assert forall|i: int| 0 <= i < 1 + k implies (#[trigger] calls[i]).id@ != id by {
            if i > 0 {
                assert(rest[i - 1] == calls[i]);
            }
        }
    }
}

/// When a call ends, the first call with its identifier gets its outcome, its end and its output;
/// every other call stays, and so does all else of the task but the timeline, which tells of the
/// end and of the patch that `apply_patch` leaves.
pub proof fn calls_end_with_their_outcome(
    old: TaskRecord,
    id: Seq<char>,
    name: Seq<char>,
    success: bool,
    output: Seq<char>,
    detail: Option<Seq<char>>,
    now: Timestamp,
    new: TaskRecord,
    k: int,
)
    requires
        call_ended(old, id, name, success, output, detail, now, new),
    ensures
        new == (TaskRecord { tool_calls: new.tool_calls, timeline: new.timeline, ..old }),
        new.tool_calls@.len() == old.tool_calls@.len(),
        0 <= k < old.tool_calls@.len() && old.tool_calls@[k].id@ == id && (forall|i: int|
            0 <= i < k ==> (#[trigger] old.tool_calls@[i]).id@ != id) ==> {
            let a = old.tool_calls@[k];
            let b = new.tool_calls@[k];
            &&& success ==> b.status is Success
            &&& !success ==> b.status is Failed
            &&& b.id == a.id && b.name == a.name && b.started_at == a.started_at && b.input_summary
                == a.input_summary
            &&& b.ended_at == Some(now)
            &&& b.duration_ms matches Some(ms) && ms as int == duration_millis(a.started_at, now)
            &&& b.output_summary matches Some(s) && s@ == summary_of(output, 240)
            &&& match b.detail_path {
                Some(path) => detail == Some(path@),
                None => detail is None,
            }
            &&& match b.patch_ref {
                Some(path) => name == "apply_patch"@ && detail == Some(path@),
                None => name != "apply_patch"@ || detail is None,
            }
            &&& forall|i: int|
                0 <= i < old.tool_calls@.len() && i != k ==> #[trigger] new.tool_calls@[i]
                    == old.tool_calls@[i]
        },
        (forall|i: int| 0 <= i < old.tool_calls@.len() ==> (#[trigger] old.tool_calls@[i]).id@ != id)
            ==> new.tool_calls@ == old.tool_calls@,
        new.timeline@.len() == old.timeline@.len() + (if name == "apply_patch"@ && detail is Some {
            2int
        } else {
            1
        }),
        new.timeline@.take(old.timeline@.len() as int) == old.timeline@,
        ({
            let line = new.timeline@[old.timeline@.len() as int];
            &&& line.kind@ == "tool_completed"@ && line.timestamp == now
            &&& points_to(line.detail_path, detail)
            &&& success ==> line.summary@ == name + " "@ + "success"@ + ": "@ + summary_of(
                output,
                240,
            )
            &&& !success ==> line.summary@ == name + " "@ + "failed"@ + ": "@ + summary_of(
                output,
                240,
            )
        }),
        name == "apply_patch"@ ==> (detail matches Some(path) ==> {
            let line = new.timeline@[old.timeline@.len() as int + 1];
            line.kind@ == "patch_ref"@ && line.timestamp == now && line.summary@
                == "Patch artifact: "@ + path && points_to(line.detail_path, detail)
        }),
{
    lemma_call_index(old.tool_calls@, id);
    let j = call_index(old.tool_calls@, id);
    let n = old.timeline@.len() as int;
    if j == old.tool_calls@.len() {
        assert(new.tool_calls@ =~= old.tool_calls@);
    } else {
        assert(old.tool_calls@[j].id@ == id);
    }
    if name == "apply_patch"@ && detail is Some {
        let first = new.timeline@.drop_last();
        assert(new.timeline@.take(n) =~= first.drop_last());
        assert(new.timeline@[n] == first.last());
    } else {
        assert(new.timeline@.take(n) =~= new.timeline@.drop_last());
    }
    if 0 <= k < old.tool_calls@.len() && old.tool_calls@[k].id@ == id && (forall|i: int|
        0 <= i < k ==> (#[trigger] old.tool_calls@[i]).id@ != id) {
        if j < k {
            assert(old.tool_calls@[j].id@ != id);
        }
        if k < j {
            assert(old.tool_calls@[k].id@ != id);
        }
        assert(j == k);
    }
}

// Updates --------------------------------------------------------------------
/// A checklist takes the place of the one before, with the time of the change where it has none;
/// the line tells of how many items it has and how far they are.
pub proof fn checklists_take_the_place_of_the_last(
    old: TaskRecord,
    value: TaskChecklistState,
    now: Timestamp,
    new: TaskRecord,
)
    requires
        checklist_applied(old, value, now, new),
    ensures
        new == (TaskRecord { checklist: new.checklist, timeline: new.timeline, ..old }),
        new.checklist.items == value.items,
        new.checklist.completion_pct == value.completion_pct,
        new.checklist.in_progress_id == value.in_progress_id,
        value.updated_at is Some ==> new.checklist.updated_at == value.updated_at,
        value.updated_at is None ==> new.checklist.updated_at == Some(now),
        grows_by(
            old.timeline@,
            new.timeline@,
            now,
            "checklist"@,
            "Checklist updated: "@ + dec(value.items@.len()) + " item(s), "@ + dec(
                value.completion_pct as nat,
            ) + "% complete"@,
            None,
        ),
{
    assert(new.timeline@.take(old.timeline@.len() as int) =~= new.timeline@.drop_last());
}

/// A gate is added at the end, as it is; what was recorded of other gates stays.
pub proof fn gates_are_added_as_they_are(
    old: TaskRecord,
    gate: TaskGateRecord,
    now: Timestamp,
    new: TaskRecord,
    other: TaskGateRecord,
)
    requires
        gate_applied(old, gate, now, new),
    ensures
        new == (TaskRecord { gates: new.gates, timeline: new.timeline, ..old }),
        new.gates@.len() > 0 && new.gates@.last() == gate,
        other.id@ != gate.id@ ==> (new.gates@.contains(other) <==> old.gates@.contains(other)),
        other.id@ == gate.id@ && new.gates@.contains(other) ==> other == gate,
        grows_by(
            old.timeline@,
            new.timeline@,
            now,
            "gate"@,
            summary_of("Gate "@ + gate.gate@ + " "@ + gate.status@ + ": "@ + gate.summary@, 240),
            match gate.log_path {
                Some(path) => Some(path@),
                None => None,
            },
        ),
{
    assert(new.timeline@.take(old.timeline@.len() as int) =~= new.timeline@.drop_last());
    let keep = |g: TaskGateRecord| g.id@ != gate.id@;
    let kept = old.gates@.filter(keep);
    lemma_filtered(old.gates@, keep, other);
    lemma_pushed(kept, gate, other);
}

proof fn lemma_filtered<T>(all: Seq<T>, keep: spec_fn(T) -> bool, x: T)
    ensures
        all.filter(keep).contains(x) <==> all.contains(x) && keep(x),
    decreases all.len(),
{
    reveal(Seq::filter);
    if all.len() > 0 {
        let init = all.drop_last();
        lemma_filtered(init, keep, x);
        let last = all.last();
        let before = init.filter(keep);
        lemma_pushed(init, last, x);
        assert(init.push(last) =~= all);
        lemma_pushed(before, last, x);
    }
}

proof fn lemma_pushed<T>(s: Seq<T>, last: T, x: T)
    ensures
        s.push(last).contains(x) <==> s.contains(x) || x == last,
{
    if s.contains(x) {
        let i = choose|i: int| 0 <= i < s.len() && s[i] == x;
        assert(s.push(last)[i] == x);
    }
    if s.push(last).contains(x) {
        let i = choose|i: int| 0 <= i < s.push(last).len() && s.push(last)[i] == x;
        if i < s.len() {
            assert(s[i] == x);
        }
    }
    assert(s.push(last)[s.len() as int] == last);
}

/// An attempt is added at the end, as it is; what was recorded of other attempts stays.
pub proof fn attempts_are_added_as_they_are(
    old: TaskRecord,
    attempt: TaskAttemptRecord,
    now: Timestamp,
    new: TaskRecord,
    other: TaskAttemptRecord,
)
    requires
        attempt_applied(old, attempt, now, new),
    ensures
        new == (TaskRecord { attempts: new.attempts, timeline: new.timeline, ..old }),
        new.attempts@.len() > 0 && new.attempts@.last() == attempt,
        other.id@ != attempt.id@ ==> (new.attempts@.contains(other) <==> old.attempts@.contains(
            other,
        )),
        other.id@ == attempt.id@ && new.attempts@.contains(other) ==> other == attempt,
        grows_by(
            old.timeline@,
            new.timeline@,
            now,
            "pr_attempt"@,
            "Attempt "@ + dec(attempt.attempt_index as nat) + "/"@ + dec(
                attempt.attempt_count as nat,
            ) + " recorded for "@ + attempt.attempt_group_id@,
            match attempt.patch_path {
                Some(path) => Some(path@),
                None => None,
            },
        ),
{
    assert(new.timeline@.take(old.timeline@.len() as int) =~= new.timeline@.drop_last());
    let keep = |a: TaskAttemptRecord| a.id@ != attempt.id@;
    let kept = old.attempts@.filter(keep);
    lemma_filtered(old.attempts@, keep, other);
    lemma_pushed(kept, attempt, other);
}

/// Artifacts and events of GitHub are added at the end, as they are.
pub proof fn artifacts_and_events_are_added_as_they_are(
    old: TaskRecord,
    artifact: TaskArtifactRef,
    event: TaskGithubEvent,
    now: Timestamp,
    new: TaskRecord,
)
    ensures
        artifact_applied(old, artifact, now, new) ==> {
            &&& new == (TaskRecord { artifacts: new.artifacts, timeline: new.timeline, ..old })
            &&& new.artifacts@ == old.artifacts@.push(artifact)
            &&& grows_by(
                old.timeline@,
                new.timeline@,
                now,
                "artifact"@,
                artifact.label@ + ": "@ + artifact.summary@,
                Some(artifact.path@),
            )
            &&& new.timeline@.last().detail_path matches Some(path) && path@ == artifact.path@
        },
        github_applied(old, event, now, new) ==> {
            &&& new == (TaskRecord {
                github_events: new.github_events,
                timeline: new.timeline,
                ..old
            })
            &&& new.github_events@ == old.github_events@.push(event)
            &&& grows_by(
                old.timeline@,
                new.timeline@,
                now,
                "github"@,
                event.action@ + " "@ + event.target@ + "#"@ + dec(event.number as nat) + ": "@
                    + event.summary@,
                None,
            )
        },
{
    if new.timeline@.len() > 0 {
        assert(new.timeline@.take(new.timeline@.len() - 1) =~= new.timeline@.drop_last());
    }
}

/// An update that cannot be read in full is refused, with the first part that cannot; any other
/// sets the parts that it has and no other.
pub proof fn updates_set_the_parts_that_they_have(
    old: TaskRecord,
    updates: TaskUpdates,
    now: Timestamp,
    new: TaskRecord,
)
    requires
        update_applied(old, updates, now, new),
    ensures
        updates.checklist is Absent ==> new.checklist == old.checklist,
        updates.gate is Absent ==> new.gates == old.gates,
        updates.attempt is Absent ==> new.attempts == old.attempts,
        updates.artifacts@.len() == 0 ==> new.artifacts == old.artifacts,
        updates.github_event is Absent ==> new.github_events == old.github_events,
        updates.checklist matches crate::task_updates::Parsed::Value(v) ==> new.checklist.items
            == v.items && new.checklist.completion_pct == v.completion_pct,
        updates.gate matches crate::task_updates::Parsed::Value(v) ==> new.gates@.len() > 0
            && new.gates@.last() == v,
        updates.attempt matches crate::task_updates::Parsed::Value(v) ==> new.attempts@.len() > 0
            && new.attempts@.last() == v,
        updates.github_event matches crate::task_updates::Parsed::Value(v)
            ==> new.github_events@.len() > 0 && new.github_events@.last() == v,
{
    let (a, b, c, d) = choose|a: TaskRecord, b: TaskRecord, c: TaskRecord, d: TaskRecord|
        #![trigger crate::task_updates::with_checklist(old, updates.checklist, now, a), crate::task_updates::with_gate(a, updates.gate, now, b), crate::task_updates::with_attempt(b, updates.attempt, now, c), crate::task_updates::artifacts_applied(c, updates.artifacts@, now, d)]
        crate::task_updates::with_checklist(old, updates.checklist, now, a)
            && crate::task_updates::with_gate(a, updates.gate, now, b)
            && crate::task_updates::with_attempt(b, updates.attempt, now, c)
            && crate::task_updates::artifacts_applied(c, updates.artifacts@, now, d)
            && crate::task_updates::with_github(d, updates.github_event, now, new);
    let steps = choose|steps: Seq<TaskRecord>| #[trigger]
        crate::task_updates::artifact_steps(steps, updates.artifacts@, now) && steps[0] == c
            && steps.last() == d;
    lemma_artifacts_keep(steps, updates, now, steps.len() - 1);
}

proof fn lemma_artifacts_keep(steps: Seq<TaskRecord>, updates: TaskUpdates, now: Timestamp, n: int)
    requires
        crate::task_updates::artifact_steps(steps, updates.artifacts@, now),
        0 <= n < steps.len(),
    ensures
        steps[n].checklist == steps[0].checklist,
        steps[n].gates == steps[0].gates,
        steps[n].attempts == steps[0].attempts,
        steps[n].github_events == steps[0].github_events,
        steps[n].status == steps[0].status,
    decreases n,
{
    if n > 0 {
        lemma_artifacts_keep(steps, updates, now, n - 1);
        let artifact = updates.artifacts@[n - 1];
    }
}

/// What is wrong with an update names the first part, in order, that could not be read.
pub proof fn unreadable_parts_are_named(updates: TaskUpdates)
    ensures
        updates.checklist is Invalid ==> update_fault(updates) == Some(
            "Failed to parse checklist task update"@,
        ),
        updates.checklist !is Invalid && updates.gate is Invalid ==> update_fault(updates) == Some(
            "Failed to parse gate task update"@,
        ),
        updates.checklist !is Invalid && updates.gate !is Invalid && updates.attempt is Invalid
            ==> update_fault(updates) == Some("Failed to parse attempt task update"@),
        update_fault(updates) is None <==> updates.checklist !is Invalid && updates.gate !is Invalid
            && updates.attempt !is Invalid && updates.github_event !is Invalid && forall|i: int|
            0 <= i < updates.artifacts@.len() ==> !(#[trigger] updates.artifacts@[i] is Invalid),
{
}

// Short texts and names ------------------------------------------------------
proof fn lemma_long_texts(text: Seq<char>, room: int)
    requires
        0 <= room < text.len(),
        forall|i: int| 0 <= i < text.len() ==> !left_out(#[trigger] text[i]),
    ensures
        summary_within(text, room) == text.take(room) + "..."@,
    decreases text.len(),
{
    if room > 0 {
        let rest = text.drop_first();
        assert forall|i: int| 0 <= i < rest.len() implies !left_out(#[trigger] rest[i]) by {
            assert(rest[i] == text[i + 1]);
        }
        lemma_long_texts(rest, room - 1);
        assert(seq![text[0]] + (rest.take(room - 1) + "..."@) =~= text.take(room) + "..."@);
    } else {
        assert(text.take(0) + "..."@ =~= "..."@);
    }
}

/// A long text is cut so that three dots fit behind it, in the limit; control characters other than
/// line breaks and tabs do not count and are left out.
pub proof fn long_texts_are_cut(text: Seq<char>, limit: usize, c: char)
    requires
        limit >= 3,
    ensures
        (forall|i: int| 0 <= i < text.len() ==> !left_out(#[trigger] text[i])) && text.len() > limit
            - 3 ==> summary_of(text, limit) == text.take(limit - 3) + "..."@,
        limit > 3 && left_out(c) ==> summary_of(seq![c] + text, limit) == summary_of(text, limit),
        left_out(c) <==> ((c as int) < 32 || 127 <= c as int <= 159) && c != '\n' && c != '\t',
{
    if (forall|i: int| 0 <= i < text.len() ==> !left_out(#[trigger] text[i])) && text.len() > limit
        - 3 {
        lemma_long_texts(text, limit - 3);
    }
    assert((seq![c] + text).drop_first() =~= text);
}

/// In the name of a file a label keeps its letters, digits, underscores and hyphens; any other
/// character is an underscore, and an empty label is `artifact`.
pub proof fn labels_keep_what_names_may_hold(label: Seq<char>, i: int)
    ensures
        label.len() == 0 ==> sanitized(label) == "artifact"@,
        label.len() > 0 ==> sanitized(label).len() == label.len(),
        0 <= i < label.len() ==> {
            let c = label[i];
            let plain = 'a' as int <= c as int <= 'z' as int || 'A' as int <= c as int <= 'Z' as int
                || '0' as int <= c as int <= '9' as int || c == '_' || c == '-';
            (plain ==> sanitized(label)[i] == c) && (!plain ==> sanitized(label)[i] == '_')
        },
{
}

/// A number is brought to the nearest of a range.
pub proof fn numbers_are_brought_into_range(n: int, low: int, high: int)
    requires
        low <= high,
    ensures
        low <= clamped(n, low, high) <= high,
        low <= n <= high ==> clamped(n, low, high) == n,
        n < low ==> clamped(n, low, high) == low,
        n > high ==> clamped(n, low, high) == high,
{
}

/// A task whose events could no longer be reported has failed, keeps what was captured unless it is
/// blank, and says what went wrong.
pub proof fn unreported_tasks_fail(
    r: TaskExecutionResult,
    error: TaskExecutionReportError,
    captured: Seq<char>,
)
    requires
        is_reporting_failure(r, error, captured),
    ensures
        r.status is Failed,
        trimmed(captured).len() == 0 ==> r.result_text is None,
        trimmed(captured).len() > 0 ==> (r.result_text matches Some(t) && t@ == captured),
        r.error matches Some(why) && match error {
            TaskExecutionReportError::Closed => why@ == "Failed to persist task execution event: "@
                + "task execution reporter is closed"@,
            TaskExecutionReportError::AcknowledgementDropped => why@
                == "Failed to persist task execution event: "@
                + "task execution event acknowledgement was dropped"@,
            TaskExecutionReportError::Rejected(words) => why@
                == "Failed to persist task execution event: "@ + (
            "task execution event persistence failed: "@ + words@),
        },
{
}

// From the automation to its task ------------------------------------------------
/// The task that a request of an automation's run leads to: the automation's prompt without white
/// space round it, its model and its first directory, or else the defaults, and its switches.
pub open spec fn is_task_of(
    task: TaskRecord,
    automation: AutomationRecord,
    cfg: TaskManagerConfig,
    default_workspace: Seq<char>,
) -> bool {
    &&& task.prompt@ == trimmed(automation.prompt@)
    &&& task.model@ == match automation.model {
        Some(model) => model@,
        None => cfg.default_model@,
    }
    &&& task.workspace@ == if automation.cwds@.len() > 0 {
        automation.cwds@[0]@
    } else {
        default_workspace
    }
    &&& task.allow_shell == (automation.allow_shell == Some(true))
    &&& task.trust_mode == (automation.trust_mode == Some(true))
    &&& task.auto_approve == (automation.auto_approve == Some(true))
    &&& task.status is Queued
}

proof fn lemma_task_of(
    req: NewTaskRequest,
    automation: AutomationRecord,
    m: ManagerModel,
    cfg: TaskManagerConfig,
    default_workspace: Seq<char>,
    key: Option<Seq<char>>,
    now: Timestamp,
    task: TaskRecord,
)
    requires
        is_task_request(req, automation),
        is_task_plan(m, req, cfg, default_workspace, key, now, Ok(AddPlan::New(task))),
    ensures
        is_task_of(task, automation, cfg, default_workspace),
{
    assert(asks_for_new_task(m, req, cfg, key));
    let id = choose|id: Option<Seq<char>>| #[trigger]
        is_random_task_id(m.tasks, id) && new_task_or_refusal(
            req,
            cfg,
            default_workspace,
            key,
            id,
            now,
            Ok(AddPlan::New(task)),
        );
    new_tasks_are_what_was_asked_for(task, req, cfg, default_workspace, key, id->Some_0, now);
}

/// The task that is planned from what a tick asks for is the automation's.
pub proof fn tasks_of_ticks_are_the_automations(
    zone: Zone,
    s: TickStep,
    req: NewTaskRequest,
    m: ManagerModel,
    cfg: TaskManagerConfig,
    default_workspace: Seq<char>,
    key: Option<Seq<char>>,
    now: Timestamp,
    task: TaskRecord,
)
    requires
        s.is_step(zone),
        s.action == TickAction::Enqueue(req),
        is_task_plan(m, req, cfg, default_workspace, key, now, Ok(AddPlan::New(task))),
    ensures
        is_task_of(task, s.before.automation, cfg, default_workspace),
{
    assert(s.event is PendingSaved);
    lemma_task_of(req, s.before.automation, m, cfg, default_workspace, key, now, task);
}

/// The task that is planned from what a resumption asks for is the automation's.
pub proof fn tasks_of_resumptions_are_the_automations(
    zone: Zone,
    s: ResumeMove,
    req: NewTaskRequest,
    m: ManagerModel,
    cfg: TaskManagerConfig,
    default_workspace: Seq<char>,
    key: Option<Seq<char>>,
    now: Timestamp,
    task: TaskRecord,
)
    requires
        s.is_step(zone),
        s.action == ResumeAction::Enqueue(req),
        is_task_plan(m, req, cfg, default_workspace, key, now, Ok(AddPlan::New(task))),
    ensures
        is_task_of(task, s.before.automation, cfg, default_workspace),
{
    lemma_task_of(req, s.before.automation, m, cfg, default_workspace, key, now, task);
}

/// The task that is planned from what a run by hand asks for is the automation's.
pub proof fn tasks_of_runs_by_hand_are_the_automations(
    s: ManualMove,
    req: NewTaskRequest,
    m: ManagerModel,
    cfg: TaskManagerConfig,
    default_workspace: Seq<char>,
    key: Option<Seq<char>>,
    now: Timestamp,
    task: TaskRecord,
)
    requires
        s.is_step(),
        s.action == ManualAction::Enqueue(req),
        is_task_plan(m, req, cfg, default_workspace, key, now, Ok(AddPlan::New(task))),
    ensures
        is_task_of(task, s.before.automation, cfg, default_workspace),
{
    lemma_task_of(req, s.before.automation, m, cfg, default_workspace, key, now, task);
}

/// A request without a prompt, or for a mode that does not exist, is refused; any other is in order.
pub proof fn requests_need_a_prompt_and_a_known_mode(req: NewTaskRequest, cfg: TaskManagerConfig)
    ensures
        ({
            let mode = match req.mode {
                Some(word) => word@,
                None => cfg.default_mode@,
            };
            let word = lower(trimmed(mode));
            &&& request_fault(req, cfg) is None <==> trimmed(req.prompt@).len() > 0 && (word
                == "agent"@ || word == "plan"@ || word == "yolo"@)
            &&& trimmed(req.prompt@).len() == 0 ==> request_fault(req, cfg) == Some(
                "Task prompt cannot be empty"@,
            )
            &&& trimmed(req.prompt@).len() > 0 && request_fault(req, cfg) is Some ==> request_fault(
                req,
                cfg,
            ) == Some("Invalid task mode '"@ + mode + "'. Expected one of: agent, plan, yolo"@)
        }),
{
}

/// A request whose key has led to a task leads to that task again, whatever it asks for; a request
/// that is in order and whose key is new leads to a new task, unless no identifier was free.
pub proof fn known_keys_lead_to_their_task(
    m: ManagerModel,
    req: NewTaskRequest,
    cfg: TaskManagerConfig,
    default_workspace: Seq<char>,
    key: Option<Seq<char>>,
    now: Timestamp,
    r: Result<AddPlan, Failure>,
)
    requires
        is_task_plan(m, req, cfg, default_workspace, key, now, r),
    ensures
        r matches Ok(AddPlan::Existing(id)) ==> (key matches Some(k) && task_under(m.keys, k)
            == Some(id@)),
        r matches Ok(AddPlan::New(task)) ==> (key matches Some(k) ==> task_under(m.keys, k) is None)
            && request_fault(req, cfg) is None && forall|i: int|
            0 <= i < m.tasks.len() ==> (#[trigger] m.tasks[i]).id@ != task.id@,
        key is None && request_fault(req, cfg) is Some ==> r is Err,
{
    if let Ok(AddPlan::New(task)) = r {
        assert(asks_for_new_task(m, req, cfg, key));
        let id = choose|id: Option<Seq<char>>| #[trigger]
            is_random_task_id(m.tasks, id) && new_task_or_refusal(
                req,
                cfg,
                default_workspace,
                key,
                id,
                now,
                r,
            );
        assert(task.id@ == id->Some_0);
    }
    if let Ok(AddPlan::Existing(id)) = r {
        if existing_task(m, key) is None {
            if request_fault(req, cfg) is None {
                assert(asks_for_new_task(m, req, cfg, key));
                let found = choose|found: Option<Seq<char>>| #[trigger]
                    is_random_task_id(m.tasks, found) && new_task_or_refusal(
                        req,
                        cfg,
                        default_workspace,
                        key,
                        found,
                        now,
                        r,
                    );
            }
        }
    }
}

/// The limits of tasks: the length of a line, the size from which on a text gets a file, the number
/// of workers, and how many identifiers are tried.
pub proof fn tasks_keep_to_their_limits()
    ensures
        TIMELINE_SUMMARY_LIMIT == 240,
        ARTIFACT_THRESHOLD == 1_200,
        DEFAULT_WORKERS == 2,
        MAX_WORKERS == 8,
        MAX_TASK_ID_GENERATION_ATTEMPTS == 32,
{
}

/// Each status has its own name.
pub proof fn statuses_are_called_by_their_names(status: TaskStatus)
    ensures
        match status {
            TaskStatus::Queued => status.name_spec() == "Queued"@,
            TaskStatus::Running => status.name_spec() == "Running"@,
            TaskStatus::Completed => status.name_spec() == "Completed"@,
            TaskStatus::Failed => status.name_spec() == "Failed"@,
            TaskStatus::Canceled => status.name_spec() == "Canceled"@,
        },
{
}

/// The name of an artifact's file is its stamp and its label, with an underscore between them and
/// the extension of a text.
pub proof fn artifacts_are_named_by_stamp_and_label(stamp: Seq<char>, label: Seq<char>)
    ensures
        artifact_name(stamp, label) == stamp + "_"@ + sanitized(label) + ".txt"@,
{
}

/// The part of an update is the value under its key, in what the metadata of a tool holds under
/// `task_updates`; without either there is none, and only a list has items.
pub proof fn updates_stand_under_their_key(metadata: Option<Json>, key: Seq<char>)
    ensures
        metadata is None ==> part(metadata, key) is None,
        metadata matches Some(value) ==> match field(value, "task_updates"@) {
            Some(updates) => part(metadata, key) == field(updates, key),
            None => part(metadata, key) is None,
        },
        part(metadata, key) matches Some(Json::Array(list)) ==> items_of(part(metadata, key))
            == list@,
        !(part(metadata, key) matches Some(Json::Array(_))) ==> items_of(
            part(metadata, key),
        ).len() == 0,
{
}

} // verus!
