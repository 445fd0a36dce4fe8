//! What happens to a task's record while the task runs.
use vstd::prelude::*;
use vstd::string::*;

use crate::failure::Failure;
use crate::json::json_text;
use crate::task::{
    copy_text_opt, needs_artifact, summarize_json, summarize_text, summary_of, TaskExecutionEvent,
    TaskExecutionResult, TaskRecord, TaskStatus, TaskToolCallSummary, TaskToolStatus,
    TaskTimelineEntry, ARTIFACT_THRESHOLD, TIMELINE_SUMMARY_LIMIT,
};
use crate::task_updates::{
    add_entry, adds_entry, apply_task_updates, lemma_as_long, lemma_longer, lemma_same_task_again,
    same_task, update_applied, update_fault, updates_keep_the_task, TaskUpdates,
};
use crate::text::{
    copy_text, dec, decimal, is_blank, join2, join3, same_text, text_opt, trim, utf8_len,
};
use crate::time::{duration_millis, duration_ms, Timestamp};

verus! {

// Events ---------------------------------------------------------------------
/// Only the timeline differs.
pub open spec fn timeline_only(old: TaskRecord, new: TaskRecord) -> bool {
    new == (TaskRecord { timeline: new.timeline, ..old })
}

/// Where the call with identifier `id` stands, or how many calls there are.
pub open spec fn call_index(calls: Seq<TaskToolCallSummary>, id: Seq<char>) -> int
    decreases calls.len(),
{
    if calls.len() == 0 || calls[0].id@ == id {
        0
    } else {
        1 + call_index(calls.drop_first(), id)
    }
}

/// A call that has just begun.
pub open spec fn is_started_call(
    call: TaskToolCallSummary,
    id: Seq<char>,
    name: Seq<char>,
    input: Seq<char>,
    now: Timestamp,
) -> bool {
    &&& call.id@ == id
    &&& call.name@ == name
    &&& call.status is Running
    &&& call.started_at == now
    &&& call.ended_at is None
    &&& call.duration_ms is None
    &&& text_opt(call.input_summary) == Some(input)
    &&& call.output_summary is None
    &&& call.detail_path is None
    &&& call.patch_ref is None
}

/// The path of a patch: the file that the output of `apply_patch` is kept in.
pub open spec fn patch_path(name: Seq<char>, detail: Option<Seq<char>>) -> Option<Seq<char>> {
    if name == "apply_patch"@ {
        detail
    } else {
        None
    }
}

/// A call that has just ended.
pub open spec fn is_ended_call(
    old: TaskToolCallSummary,
    new: TaskToolCallSummary,
    name: Seq<char>,
    success: bool,
    output: Seq<char>,
    detail: Option<Seq<char>>,
    now: Timestamp,
) -> bool {
    &&& new.id == old.id
    &&& new.name == old.name
    &&& new.status == if success {
        TaskToolStatus::Success
    } else {
        TaskToolStatus::Failed
    }
    &&& new.started_at == old.started_at
    &&& new.ended_at == Some(now)
    &&& new.duration_ms matches Some(ms) && ms as int == duration_millis(old.started_at, now)
    &&& new.input_summary == old.input_summary
    &&& text_opt(new.output_summary) == Some(summary_of(output, TIMELINE_SUMMARY_LIMIT))
    &&& text_opt(new.detail_path) == detail
    &&& text_opt(new.patch_ref) == patch_path(name, detail)
}

/// The timeline gets a line for the end of a call, and another for its patch.
pub open spec fn tells_of_end(
    before: Seq<TaskTimelineEntry>,
    after: Seq<TaskTimelineEntry>,
    name: Seq<char>,
    success: bool,
    output: Seq<char>,
    detail: Option<Seq<char>>,
    now: Timestamp,
) -> bool {
    let line = name + " "@ + (if success {
        "success"@
    } else {
        "failed"@
    }) + ": "@ + summary_of(output, TIMELINE_SUMMARY_LIMIT);
    match patch_path(name, detail) {
        None => adds_entry(before, after, now, "tool_completed"@, line, detail),
        Some(path) => {
            &&& after.len() > 0
            &&& adds_entry(before, after.drop_last(), now, "tool_completed"@, line, detail)
            &&& adds_entry(
                after.drop_last(),
                after,
                now,
                "patch_ref"@,
                "Patch artifact: "@ + path,
                Some(path),
            )
        },
    }
}

/// What becomes of a task when a call ends, apart from what the tool asked for.
pub open spec fn call_ended(
    old: TaskRecord,
    id: Seq<char>,
    name: Seq<char>,
    success: bool,
    output: Seq<char>,
    detail: Option<Seq<char>>,
    now: Timestamp,
    new: TaskRecord,
) -> bool {
    let k = call_index(old.tool_calls@, id);
    &&& new == (TaskRecord { tool_calls: new.tool_calls, timeline: new.timeline, ..old })
    &&& new.tool_calls@.len() == old.tool_calls@.len()
    &&& forall|i: int|
        0 <= i < old.tool_calls@.len() && i != k ==> #[trigger] new.tool_calls@[i]
            == old.tool_calls@[i]
    &&& k < old.tool_calls@.len() ==> is_ended_call(
        old.tool_calls@[k],
        new.tool_calls@[k],
        name,
        success,
        output,
        detail,
        now,
    )
    &&& tells_of_end(old.timeline@, new.timeline@, name, success, output, detail, now)
}

/// What becomes of a task when a call begins.
pub open spec fn call_started(
    old: TaskRecord,
    id: Seq<char>,
    name: Seq<char>,
    input: Seq<char>,
    now: Timestamp,
    new: TaskRecord,
) -> bool {
    &&& new == (TaskRecord { tool_calls: new.tool_calls, timeline: new.timeline, ..old })
    &&& new.tool_calls@.len() == old.tool_calls@.len() + 1
    &&& new.tool_calls@.drop_last() == old.tool_calls@
    &&& is_started_call(new.tool_calls@.last(), id, name, input, now)
    &&& adds_entry(
        old.timeline@,
        new.timeline@,
        now,
        "tool_started"@,
        name + " started ("@ + input + ")"@,
        None,
    )
}

/// What becomes of a task when its executor reports an event that changes no more
/// than the record.
pub open spec fn simple_event_applied(
    old: TaskRecord,
    event: TaskExecutionEvent,
    now: Timestamp,
    new: TaskRecord,
) -> bool {
    match event {
        TaskExecutionEvent::ThreadCreated { thread_id } => {
            &&& new == (TaskRecord { thread_id: new.thread_id, timeline: new.timeline, ..old })
            &&& text_opt(new.thread_id) == Some(thread_id@)
            &&& adds_entry(
                old.timeline@,
                new.timeline@,
                now,
                "runtime_thread"@,
                "Linked runtime thread "@ + thread_id@,
                None,
            )
        },
        TaskExecutionEvent::ThreadLinked { thread_id, turn_id } => {
            &&& new == (TaskRecord {
                thread_id: new.thread_id,
                turn_id: new.turn_id,
                timeline: new.timeline,
                ..old
            })
            &&& text_opt(new.thread_id) == Some(thread_id@)
            &&& text_opt(new.turn_id) == Some(turn_id@)
            &&& adds_entry(
                old.timeline@,
                new.timeline@,
                now,
                "runtime_link"@,
                "Linked runtime thread "@ + thread_id@ + " turn "@ + turn_id@,
                None,
            )
        },
        TaskExecutionEvent::Status { message } => timeline_only(old, new) && adds_entry(
            old.timeline@,
            new.timeline@,
            now,
            "status"@,
            summary_of(message@, TIMELINE_SUMMARY_LIMIT),
            None,
        ),
        TaskExecutionEvent::MessageDelta { content } => if is_blank(content@) {
            new == old
        } else {
            timeline_only(old, new) && adds_entry(
                old.timeline@,
                new.timeline@,
                now,
                "message"@,
                summary_of(content@, TIMELINE_SUMMARY_LIMIT),
                None,
            )
        },
        TaskExecutionEvent::ToolStarted { id, name, input } => call_started(
            old,
            id@,
            name@,
            summary_of(json_text(input), TIMELINE_SUMMARY_LIMIT),
            now,
            new,
        ),
        TaskExecutionEvent::ToolProgress { id, output } => timeline_only(old, new) && adds_entry(
            old.timeline@,
            new.timeline@,
            now,
            "tool_progress"@,
            id@ + ": "@ + summary_of(output@, 232),
            None,
        ),
        TaskExecutionEvent::Error { message } => timeline_only(old, new) && adds_entry(
            old.timeline@,
            new.timeline@,
            now,
            "error"@,
            summary_of(message@, TIMELINE_SUMMARY_LIMIT),
            None,
        ),
        TaskExecutionEvent::RuntimeEvent { seq, event: name, summary } => {
            &&& new == (TaskRecord {
                runtime_event_count: new.runtime_event_count,
                timeline: new.timeline,
                ..old
            })
            &&& new.runtime_event_count == if old.runtime_event_count == usize::MAX {
                usize::MAX as int
            } else {
                old.runtime_event_count + 1
            }
            &&& adds_entry(
                old.timeline@,
                new.timeline@,
                now,
                "runtime_event"@,
                "#"@ + dec(seq as nat) + " "@ + name@ + ": "@ + summary@,
                None,
            )
        },
        TaskExecutionEvent::ToolCompleted { .. } => false,
    }
}

/// What [`apply_execution_event`] makes of a record.
pub open spec fn event_applied(
    old: TaskRecord,
    event: TaskExecutionEvent,
    now: Timestamp,
    detail: Option<Seq<char>>,
    updates: TaskUpdates,
    r: Result<TaskRecord, Failure>,
) -> bool {
    match event {
        TaskExecutionEvent::ToolCompleted { id, name, success, output, .. } => match update_fault(
            updates,
        ) {
            Some(words) => r matches Err(e) && e@ == words,
            None => r matches Ok(new) && exists|middle: TaskRecord| #[trigger]
                call_ended(old, id@, name@, success, output@, detail, now, middle)
                    && update_applied(middle, updates, now, new),
        },
        _ => r matches Ok(new) && simple_event_applied(old, event, now, new),
    }
}

fn find_call(calls: &Vec<TaskToolCallSummary>, id: &str) -> (r: usize)
    ensures
        r as int == call_index(calls@, id@),
        r <= calls@.len(),
{
    let mut i: usize = 0;
    assert(calls@.skip(0) =~= calls@);
    while i < calls.len()
        invariant
            i <= calls@.len(),
            call_index(calls@, id@) == i + call_index(calls@.skip(i as int), id@),
        decreases calls@.len() - i,
    {
        assert(calls@.skip(i as int).drop_first() =~= calls@.skip(i + 1));
        if same_text(calls[i].id.as_str(), id) {
            return i;
        }
        i += 1;
    }
    i
}

fn start_call(task: &mut TaskRecord, id: String, name: String, input: String, now: Timestamp)
    ensures
        call_started(*old(task), id@, name@, input@, now, *final(task)),
{
    let ghost before = task.tool_calls@;
    let mut line = join3(name.as_str(), " started (", input.as_str());
    line.append(")");
    task.tool_calls.push(
        TaskToolCallSummary {
            id,
            name,
            status: TaskToolStatus::Running,
            started_at: now,
            ended_at: None,
            duration_ms: None,
            input_summary: Some(input),
            output_summary: None,
            detail_path: None,
            patch_ref: None,
        },
    );
    assert(task.tool_calls@.drop_last() =~= before);
    add_entry(task, now, "tool_started", line, None);
}

fn end_call(
    task: &mut TaskRecord,
    id: &str,
    name: &str,
    success: bool,
    output: &str,
    detail: &Option<String>,
    now: Timestamp,
)
    ensures
        call_ended(
            *old(task),
            id@,
            name@,
            success,
            output@,
            text_opt(*detail),
            now,
            *final(task),
        ),
{
    let summary = summarize_text(output, TIMELINE_SUMMARY_LIMIT);
    let patch = if same_text(name, "apply_patch") {
        copy_text_opt(detail)
    } else {
        None
    };
    let k: usize = find_call(&task.tool_calls, id);
    if k < task.tool_calls.len() {
        let ghost before = task.tool_calls@;
        let call = task.tool_calls.remove(k);
        let ended = TaskToolCallSummary {
            status: if success {
                TaskToolStatus::Success
            } else {
                TaskToolStatus::Failed
            },
            ended_at: Some(now),
            duration_ms: Some(duration_ms(call.started_at, now)),
            output_summary: Some(copy_text(summary.as_str())),
            detail_path: copy_text_opt(detail),
            patch_ref: copy_text_opt(&patch),
            ..call
        };
        task.tool_calls.insert(k, ended);
        assert(task.tool_calls@ =~= before.update(k as int, ended));
    }
    let mut line = join3(
        name,
        " ",
        if success {
            "success"
        } else {
            "failed"
        },
    );
    line.append(": ");
    line.append(summary.as_str());
    let ghost at_start = task.timeline@;
    add_entry(task, now, "tool_completed", line, copy_text_opt(detail));
    let ghost in_between = task.timeline@;
    if let Some(path) = patch {
        let words = join2("Patch artifact: ", path.as_str());
        add_entry(task, now, "patch_ref", words, Some(path));
        assert(task.timeline@.drop_last() == in_between);
    }
}

fn apply_simple_event(task: &mut TaskRecord, event: TaskExecutionEvent, now: Timestamp)
    requires
        event !is ToolCompleted,
    ensures
        simple_event_applied(*old(task), event, now, *final(task)),
{
    match event {
        TaskExecutionEvent::ThreadCreated { thread_id } => {
            let words = join2("Linked runtime thread ", thread_id.as_str());
            task.thread_id = Some(thread_id);
            add_entry(task, now, "runtime_thread", words, None);
        },
        TaskExecutionEvent::ThreadLinked { thread_id, turn_id } => {
            let mut words = join3("Linked runtime thread ", thread_id.as_str(), " turn ");
            words.append(turn_id.as_str());
            task.thread_id = Some(thread_id);
            task.turn_id = Some(turn_id);
            add_entry(task, now, "runtime_link", words, None);
        },
        TaskExecutionEvent::Status { message } => {
            let words = summarize_text(message.as_str(), TIMELINE_SUMMARY_LIMIT);
            add_entry(task, now, "status", words, None);
        },
        TaskExecutionEvent::MessageDelta { content } => {
            if trim(content.as_str()).as_str().unicode_len() > 0 {
                let words = summarize_text(content.as_str(), TIMELINE_SUMMARY_LIMIT);
                add_entry(task, now, "message", words, None);
            }
        },
        TaskExecutionEvent::ToolStarted { id, name, input } => {
            let words = summarize_json(&input);
            start_call(task, id, name, words, now);
        },
        TaskExecutionEvent::ToolProgress { id, output } => {
            let words = summarize_text(output.as_str(), 232);
            add_entry(task, now, "tool_progress", join3(id.as_str(), ": ", words.as_str()), None);
        },
        TaskExecutionEvent::Error { message } => {
            let words = summarize_text(message.as_str(), TIMELINE_SUMMARY_LIMIT);
            add_entry(task, now, "error", words, None);
        },
        TaskExecutionEvent::RuntimeEvent { seq, event: name, summary } => {
            task.runtime_event_count = task.runtime_event_count.saturating_add(1);
            let mut words = join3("#", decimal(seq).as_str(), " ");
            words.append(name.as_str());
            words.append(": ");
            words.append(summary.as_str());
            add_entry(task, now, "runtime_event", words, None);
        },
        TaskExecutionEvent::ToolCompleted { .. } => {},
    }
}

/// The output that has to be kept in a file before an event is applied: a label and
/// the text.
pub fn event_artifact(event: &TaskExecutionEvent) -> (r: Option<(&str, &str)>)
    ensures
        match r {
            Some((label, content)) => event matches TaskExecutionEvent::ToolCompleted {
                name,
                output,
                ..
            } && label@ == name@ && content@ == output@ && utf8_len(output@) >= ARTIFACT_THRESHOLD,
            None => !(event matches TaskExecutionEvent::ToolCompleted { output, .. } && utf8_len(
                output@,
            ) >= ARTIFACT_THRESHOLD),
        },
{
    match event {
        TaskExecutionEvent::ToolCompleted { name, output, .. } => if needs_artifact(
            output.as_str(),
        ) {
            Some((name.as_str(), output.as_str()))
        } else {
            None
        },
        _ => None,
    }
}

/// Applies an event of the executor to a task's record. `detail_path` is where a large
/// output was put, and `updates` what the tool attached to its result; both belong to
/// the end of a tool call.
pub fn apply_execution_event(
    task: TaskRecord,
    event: TaskExecutionEvent,
    now: Timestamp,
    detail_path: Option<String>,
    updates: TaskUpdates,
) -> (r: Result<TaskRecord, Failure>)
    ensures
        event_applied(task, event, now, text_opt(detail_path), updates, r),
{
    let mut out = task;
    match event {
        TaskExecutionEvent::ToolCompleted { id, name, success, output, .. } => {
            end_call(
                &mut out,
                id.as_str(),
                name.as_str(),
                success,
                output.as_str(),
                &detail_path,
                now,
            );
            assert(call_ended(
                task,
                id@,
                name@,
                success,
                output@,
                text_opt(detail_path),
                now,
                out,
            ));
            apply_task_updates(out, updates, now)
        },
        other => {
            apply_simple_event(&mut out, other, now);
            Ok(out)
        },
    }
}

// Start ----------------------------------------------------------------------
/// A task that a worker takes up.
pub open spec fn is_started(old: TaskRecord, now: Timestamp, new: TaskRecord) -> bool {
    &&& new == (TaskRecord {
        status: TaskStatus::Running,
        started_at: Some(now),
        ended_at: None,
        duration_ms: None,
        error: None,
        timeline: new.timeline,
        ..old
    })
    &&& adds_entry(old.timeline@, new.timeline@, now, "running"@, "Task started"@, None)
}

/// Marks a task as taken up.
pub fn start_record(task: TaskRecord, now: Timestamp) -> (r: TaskRecord)
    ensures
        is_started(task, now, r),
{
    let mut out = task;
    out.status = TaskStatus::Running;
    out.started_at = Some(now);
    out.ended_at = None;
    out.duration_ms = None;
    out.error = None;
    add_entry(&mut out, now, "running", copy_text("Task started"), None);
    out
}

// Cancellation ---------------------------------------------------------------
/// What a request to cancel asks for beyond the record.
#[derive(Debug, Clone, Copy, PartialEq, Eq, Structural)]
pub enum CancelEffect {
    /// Take the task out of the queue.
    LeaveQueue,
    /// Tell the running task to stop.
    Signal,
    /// Nothing: the task is over.
    Nothing,
}

/// What a request to cancel makes of a task.
pub open spec fn is_cancel(
    old: TaskRecord,
    now: Timestamp,
    new: TaskRecord,
    effect: CancelEffect,
) -> bool {
    match old.status {
        TaskStatus::Queued => {
            &&& effect is LeaveQueue
            &&& new == (TaskRecord {
                status: TaskStatus::Canceled,
                ended_at: Some(now),
                duration_ms: Some(0),
                timeline: new.timeline,
                ..old
            })
            &&& adds_entry(
                old.timeline@,
                new.timeline@,
                now,
                "canceled"@,
                "Task canceled before execution"@,
                None,
            )
        },
        TaskStatus::Running => {
            &&& effect is Signal
            &&& timeline_only(old, new)
            &&& adds_entry(
                old.timeline@,
                new.timeline@,
                now,
                "cancel_requested"@,
                "Cancellation requested"@,
                None,
            )
        },
        _ => effect is Nothing && new == old,
    }
}

/// Marks a task as canceled, or as asked to stop.
pub fn cancel_record(task: TaskRecord, now: Timestamp) -> (r: (TaskRecord, CancelEffect))
    ensures
        is_cancel(task, now, r.0, r.1),
{
    let mut out = task;
    match out.status {
        TaskStatus::Queued => {
            out.status = TaskStatus::Canceled;
            out.ended_at = Some(now);
            out.duration_ms = Some(0);
            add_entry(
                &mut out,
                now,
                "canceled",
                copy_text("Task canceled before execution"),
                None,
            );
            (out, CancelEffect::LeaveQueue)
        },
        TaskStatus::Running => {
            add_entry(&mut out, now, "cancel_requested", copy_text("Cancellation requested"), None);
            (out, CancelEffect::Signal)
        },
        TaskStatus::Completed | TaskStatus::Failed | TaskStatus::Canceled => {
            (out, CancelEffect::Nothing)
        },
    }
}

// End ------------------------------------------------------------------------
/// The result that a task is ended with. What a canceled task completed does not
/// count, and an executor that gives no final status has failed.
pub open spec fn is_settled(
    result: TaskExecutionResult,
    cancelled: bool,
    r: TaskExecutionResult,
) -> bool {
    if cancelled && result.status is Completed {
        r.status is Canceled && r.result_text is None && r.error is None
    } else if !result.status.terminal() {
        r.status is Failed && r.result_text == result.result_text && text_opt(r.error) == Some(
            "Executor returned non-terminal task status: "@ + result.status.name_spec(),
        )
    } else {
        r == result
    }
}

/// The result that a task is ended with.
pub fn settle_result(result: TaskExecutionResult, cancelled: bool) -> (r: TaskExecutionResult)
    ensures
        is_settled(result, cancelled, r),
        r.status.terminal(),
{
    if cancelled && result.status == TaskStatus::Completed {
        return TaskExecutionResult {
            status: TaskStatus::Canceled,
            result_text: None,
            error: None,
        };
    }
    if !result.status.is_terminal() {
        return TaskExecutionResult {
            status: TaskStatus::Failed,
            result_text: result.result_text,
            error: Some(
                join2(
                    "Executor returned non-terminal task status: ",
                    result.status.name(),
                ),
            ),
        };
    }
    result
}

/// The line that tells of a task's end.
pub open spec fn end_line(result: TaskExecutionResult) -> Seq<char> {
    match result.status {
        TaskStatus::Completed => "Task completed"@,
        TaskStatus::Canceled => "Task canceled"@,
        _ => "Task failed: "@ + match result.error {
            Some(error) => summary_of(error@, TIMELINE_SUMMARY_LIMIT),
            None => "unknown error"@,
        },
    }
}

/// What the record says of the result's text.
pub open spec fn end_summary(result: TaskExecutionResult) -> Option<Seq<char>> {
    match result.result_text {
        Some(text) => Some(summary_of(text@, TIMELINE_SUMMARY_LIMIT)),
        None => if result.status is Completed {
            Some("(no textual output)"@)
        } else {
            None
        },
    }
}

/// The timeline gets a line for the end, and another for the file with the result.
pub open spec fn tells_of_result(
    before: Seq<TaskTimelineEntry>,
    after: Seq<TaskTimelineEntry>,
    result: TaskExecutionResult,
    detail: Option<Seq<char>>,
    now: Timestamp,
) -> bool {
    match detail {
        None => adds_entry(before, after, now, "finished"@, end_line(result), None),
        Some(path) => {
            &&& after.len() > 0
            &&& adds_entry(before, after.drop_last(), now, "finished"@, end_line(result), None)
            &&& adds_entry(
                after.drop_last(),
                after,
                now,
                "result_ref"@,
                "Result artifact: "@ + path,
                Some(path),
            )
        },
    }
}

/// A task that has come to its end.
pub open spec fn is_finished(
    old: TaskRecord,
    result: TaskExecutionResult,
    mode: Seq<char>,
    detail: Option<Seq<char>>,
    now: Timestamp,
    new: TaskRecord,
) -> bool {
    &&& new == (TaskRecord {
        status: result.status,
        mode: new.mode,
        ended_at: Some(now),
        duration_ms: new.duration_ms,
        error: new.error,
        result_summary: new.result_summary,
        result_detail_path: new.result_detail_path,
        timeline: new.timeline,
        ..old
    })
    &&& new.mode@ == mode
    &&& match old.started_at {
        Some(start) => new.duration_ms matches Some(ms) && ms as int == duration_millis(start, now),
        None => new.duration_ms is None,
    }
    &&& text_opt(new.error) == text_opt(result.error)
    &&& text_opt(new.result_summary) == end_summary(result)
    &&& text_opt(new.result_detail_path) == detail
    &&& tells_of_result(old.timeline@, new.timeline@, result, detail, now)
}

/// Marks a task as ended with `result`. `detail_path` is where a large result was put.
pub fn finish_record(
    task: TaskRecord,
    result: &TaskExecutionResult,
    mode_label: &str,
    detail_path: &Option<String>,
    now: Timestamp,
) -> (r: TaskRecord)
    requires
        result.status.terminal(),
    ensures
        is_finished(task, *result, mode_label@, text_opt(*detail_path), now, r),
{
    let line = match result.status {
        TaskStatus::Completed => copy_text("Task completed"),
        TaskStatus::Canceled => copy_text("Task canceled"),
        _ => {
            let why = match &result.error {
                Some(error) => summarize_text(error.as_str(), TIMELINE_SUMMARY_LIMIT),
                None => copy_text("unknown error"),
            };
            join2("Task failed: ", why.as_str())
        },
    };
    let summary = match &result.result_text {
        Some(text) => Some(summarize_text(text.as_str(), TIMELINE_SUMMARY_LIMIT)),
        None => if result.status == TaskStatus::Completed {
            Some(copy_text("(no textual output)"))
        } else {
            None
        },
    };
    let mut out = task;
    out.status = result.status;
    out.mode = copy_text(mode_label);
    out.ended_at = Some(now);
    out.duration_ms = match out.started_at {
        Some(start) => Some(duration_ms(start, now)),
        None => None,
    };
    out.error = copy_text_opt(&result.error);
    add_entry(&mut out, now, "finished", line, None);
    out.result_summary = summary;
    out.result_detail_path = copy_text_opt(detail_path);
    let ghost in_between = out.timeline@;
    if let Some(path) = detail_path {
        let words = join2("Result artifact: ", path.as_str());
        add_entry(&mut out, now, "result_ref", words, Some(copy_text(path.as_str())));
        assert(out.timeline@.drop_last() == in_between);
    }
    out
}

// Laws -----------------------------------------------------------------------
/// However an executor ends, its task ends with a final status; a canceled task never
/// counts as completed.
pub proof fn tasks_end_for_good(
    result: TaskExecutionResult,
    cancelled: bool,
    settled: TaskExecutionResult,
)
    requires
        is_settled(result, cancelled, settled),
    ensures
        settled.status.terminal(),
        cancelled ==> settled.status !is Completed,
        settled.status is Completed ==> settled == result,
        !result.status.terminal() ==> settled.status is Failed && settled.error is Some,
{
}

/// A reported event never changes what a task is, how far it has come or what came of it, and
/// adds to its timeline only at the end.
pub proof fn events_keep_the_task(
    old: TaskRecord,
    event: TaskExecutionEvent,
    now: Timestamp,
    detail: Option<Seq<char>>,
    updates: TaskUpdates,
    new: TaskRecord,
)
    requires
        event_applied(old, event, now, detail, updates, Ok(new)),
    ensures
        same_task(old, new),
{
    match event {
        TaskExecutionEvent::ToolCompleted { id, name, success, output, .. } => {
            let middle = choose|middle: TaskRecord| #[trigger]
                call_ended(old, id@, name@, success, output@, detail, now, middle)
                    && update_applied(middle, updates, now, new);
            let last = middle.timeline@;
            match patch_path(name@, detail) {
                None => {
                    lemma_longer(old.timeline@, last);
                },
                Some(_) => {
                    assert(old.timeline@ =~= last.subrange(0, old.timeline@.len() as int)) by {
                        assert(last.drop_last().drop_last() == old.timeline@);
                    }
                },
            }
            updates_keep_the_task(middle, updates, now, new);
            lemma_same_task_again(old, middle, new);
        },
        _ => {
            if new.timeline == old.timeline {
                lemma_as_long(old.timeline@);
            } else {
                lemma_longer(old.timeline@, new.timeline@);
            }
        },
    }
}

/// Canceling twice is canceling once: a task that is over stays as it is.
pub proof fn ended_tasks_cannot_be_canceled(
    old: TaskRecord,
    now: Timestamp,
    new: TaskRecord,
    effect: CancelEffect,
)
    requires
        is_cancel(old, now, new, effect),
    ensures
        old.status.terminal() ==> new == old && effect is Nothing,
        old.status is Queued ==> new.status is Canceled,
        old.status is Running ==> new.status is Running && effect is Signal,
{
}

} // verus!
