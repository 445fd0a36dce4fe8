//! What each event means on the way of a task through its executor: from its launch and its turn
//! to the storing of its end, and for its worker.
use vstd::prelude::*;
use vstd::string::*;

use crate::json::{field, json_text, member, or_empty, text_field, Json, Member};
use crate::task::{
    is_reporting_failure, summary_of, ExecutionTask, TaskExecutionEvent, TaskExecutionResult,
};
use crate::task_pruning::{PruneAction, PruneEvent, PruneMove};
use crate::task_runs::{
    worker_step, FinishAction, FinishEvent, FinishMove, FinishStage, WorkerEvent, WorkerStage,
};
use crate::text::{split_on, texts, trimmed, utf8_len};
use crate::turn::{
    is_end_result, is_read_failure, is_thread_request, is_turn_request, launch_step, note_of,
    turn_step, ActiveTurn, Launch, LaunchAction, LaunchEvent, LaunchStage, Note,
    RuntimeEventRecord, ThreadRequest, TurnAction, TurnEnd, TurnEvent, TurnRequest, TurnStage,
};

verus! {

// Values ---------------------------------------------------------------------
/// The value under a key is that of the first member with the key; a value that is no object has
/// none.
pub proof fn members_are_found_under_their_key(
    members: Seq<Member>,
    first: Member,
    key: Seq<char>,
    value: Json,
)
    ensures
        member(Seq::empty(), key) is None,
        member(seq![first] + members, key) == (if first.key@ == key {
            Some(first.value)
        } else {
            member(members, key)
        }),
        value !is Object ==> field(value, key) is None,
        value matches Json::Object(all) ==> field(value, key) == member(all@, key),
        text_field(value, key) is Some ==> (field(value, key) matches Some(Json::Text(s)) && Some(
            s@,
        ) == text_field(value, key)),
        field(value, key) matches Some(Json::Text(s)) ==> text_field(value, key) == Some(s@),
{
    assert((seq![first] + members).drop_first() =~= members);
}

// Runtime events ---------------------------------------------------------------
/// A piece of an answer is a message, and a piece of a tool's output is progress of that call;
/// nothing else that comes in pieces means anything.
pub proof fn pieces_are_messages_or_progress(event: RuntimeEventRecord, note: Note)
    requires
        note_of(event, note),
        event.event@ == "item.delta"@,
    ensures
        text_field(event.payload, "kind"@) == Some("agent_message"@) ==> match text_field(
            event.payload,
            "delta"@,
        ) {
            Some(content) => note matches Note::Message(c) && c@ == content,
            None => note is Silent,
        },
        text_field(event.payload, "kind"@) == Some("tool_call"@) ==> (note matches Note::Report(
            TaskExecutionEvent::ToolProgress { id, output },
        ) && id@ == (match event.item_id {
            Some(s) => s@,
            None => Seq::empty(),
        }) && output@ == or_empty(text_field(event.payload, "delta"@))),
        text_field(event.payload, "kind"@) != Some("agent_message"@) && text_field(
            event.payload,
            "kind"@,
        ) != Some("tool_call"@) && text_field(event.payload, "kind"@) is Some ==> note is Silent,
        text_field(event.payload, "kind"@) is None ==> note is Silent,
{
    lemma_event_names();
    reveal_strlit("agent_message");
    reveal_strlit("tool_call");
    assert("agent_message"@.len() > 0 && "tool_call"@.len() > 0);
    assert("agent_message"@[0] == 'a' && "tool_call"@[0] == 't');
}

proof fn lemma_event_names()
    ensures
        "item.delta"@.len() == 10,
        "item.started"@.len() == 12,
        "item.completed"@.len() == 14,
        "item.failed"@.len() == 11,
        "turn.completed"@.len() == 14,
        "item.completed"@[0] == 'i',
        "turn.completed"@[0] == 't',
{
    reveal_strlit("item.delta");
    reveal_strlit("item.started");
    reveal_strlit("item.completed");
    reveal_strlit("item.failed");
    reveal_strlit("turn.completed");
}

/// An item that begins with a tool is the start of that tool's call, with its identifier, its name
/// and its input.
pub proof fn items_with_a_tool_start_its_call(event: RuntimeEventRecord, note: Note)
    requires
        note_of(event, note),
        event.event@ == "item.started"@,
    ensures
        field(event.payload, "tool"@) is None ==> note is Silent,
        field(event.payload, "tool"@) matches Some(tool) ==> (note matches Note::Report(
            TaskExecutionEvent::ToolStarted { id, name, input },
        ) && id@ == or_empty(text_field(tool, "id"@)) && name@ == or_empty(
            text_field(tool, "name"@),
        ) && (field(tool, "input"@) matches Some(value) ==> input == value) && (field(
            tool,
            "input"@,
        ) is None ==> (input matches Json::Object(members) && members@.len() == 0))),
{
    lemma_event_names();
}

/// An item of a tool that ends is the end of its call: it went well just where the item was
/// completed. A status is reported as a status, an error as an error, in the words of its detail or
/// else of its summary.
pub proof fn items_that_end_tell_of_their_outcome(
    event: RuntimeEventRecord,
    item: Json,
    note: Note,
)
    requires
        note_of(event, note),
        event.event@ == "item.completed"@ || event.event@ == "item.failed"@,
        field(event.payload, "item"@) == Some(item),
    ensures
        text_field(item, "kind"@) == Some("tool_call"@) || text_field(item, "kind"@) == Some(
            "file_change"@,
        ) || text_field(item, "kind"@) == Some("command_execution"@) ==> (note matches Note::Report(
            TaskExecutionEvent::ToolCompleted { id, name, success, output, metadata },
        ) && {
            &&& success <==> event.event@ == "item.completed"@
            &&& id@ == or_empty(text_field(item, "id"@))
            &&& output@ == or_empty(text_field(item, "detail"@))
            &&& metadata == field(item, "metadata"@)
            &&& text_field(item, "summary"@) matches Some(s) ==> name@ == trimmed(
                split_on(s, ':')[0],
            )
            &&& text_field(item, "summary"@) is None ==> name@ == "tool"@
        }),
        text_field(item, "kind"@) == Some("status"@) ==> (note matches Note::Report(
            TaskExecutionEvent::Status { message },
        ) && message@ == words_of(item)),
        text_field(item, "kind"@) == Some("error"@) ==> (note matches Note::Report(
            TaskExecutionEvent::Error { message },
        ) && message@ == words_of(item)),
{
    lemma_event_names();
    reveal_strlit("tool_call");
    reveal_strlit("file_change");
    reveal_strlit("command_execution");
    reveal_strlit("status");
    reveal_strlit("error");
    assert("status"@.len() == 6 && "error"@.len() == 5);
}

/// The detail of an item, else its summary, else nothing.
pub open spec fn words_of(item: Json) -> Seq<char> {
    match text_field(item, "detail"@) {
        Some(detail) => detail,
        None => match text_field(item, "summary"@) {
            Some(summary) => summary,
            None => Seq::empty(),
        },
    }
}

/// The end of the turn is completed, interrupted or canceled where it says so, and else a failure;
/// an end without a word on the turn counts as completed.
pub proof fn turns_end_as_they_say(event: RuntimeEventRecord, note: Note)
    requires
        note_of(event, note),
        event.event@ == "turn.completed"@,
    ensures
        note matches Note::Ended(end) && {
            &&& field(event.payload, "turn"@) is None ==> end.outcome is Completed
                && end.error is None
            &&& field(event.payload, "turn"@) matches Some(turn) ==> {
                let word = text_field(turn, "status"@);
                &&& word == Some("completed"@) ==> end.outcome is Completed
                &&& word == Some("interrupted"@) ==> end.outcome is Interrupted
                &&& word == Some("canceled"@) ==> end.outcome is Canceled
                &&& word != Some("completed"@) && word != Some("interrupted"@) && word != Some(
                    "canceled"@,
                ) ==> end.outcome is Failed
                &&& match end.error {
                    Some(why) => text_field(turn, "error"@) == Some(why@),
                    None => text_field(turn, "error"@) is None,
                }
            }
        },
{
    lemma_event_names();
    reveal_strlit("completed");
    reveal_strlit("interrupted");
    reveal_strlit("canceled");
    assert("completed"@.len() == 9 && "interrupted"@.len() == 11 && "canceled"@.len() == 8);
}

/// The result of a turn follows from how it ended: completed, canceled where it was interrupted or
/// canceled, and failed with the runtime's error or a word of its own. The answer so far is kept
/// unless it is blank.
pub proof fn results_follow_from_the_end(end: TurnEnd, text: Seq<char>, r: TaskExecutionResult)
    requires
        is_end_result(end, text, r),
    ensures
        end.outcome is Completed ==> r.status is Completed && r.error is None,
        end.outcome is Interrupted || end.outcome is Canceled ==> r.status is Canceled
            && r.error is None,
        end.outcome is Failed ==> r.status is Failed && (r.error matches Some(why) && why@ == (
        match end.error {
            Some(e) => e@,
            None => "Task ended unexpectedly"@,
        })),
        trimmed(text).len() == 0 ==> r.result_text is None,
        trimmed(text).len() > 0 ==> (r.result_text matches Some(t) && t@ == text),
{
}

/// A turn whose events cannot be read has failed, says why, and keeps the answer so far.
pub proof fn unread_turns_fail(text: Seq<char>, why: Seq<char>, r: TaskExecutionResult)
    requires
        is_read_failure(text, why, r),
    ensures
        r.status is Failed,
        r.error matches Some(words) && words@ == "Failed to read runtime events: "@ + why,
        trimmed(text).len() == 0 ==> r.result_text is None,
        trimmed(text).len() > 0 ==> (r.result_text matches Some(t) && t@ == text),
{
}

// The turn -------------------------------------------------------------------
/// What follows each event in a turn: its link is reported first, then its start; new events are
/// read from where the last reading stopped; what is read is reported in order.
pub proof fn turns_take_one_course(
    t: ActiveTurn,
    event: TurnEvent,
    cancelled: bool,
    next: ActiveTurn,
    action: TurnAction,
)
    requires
        t.expects(event),
        turn_step(t, event, cancelled, next, action),
    ensures
        next.task_id == t.task_id && next.thread_id == t.thread_id && next.turn_id == t.turn_id,
        event is Begun ==> (action matches TurnAction::Report(
            TaskExecutionEvent::ThreadLinked { thread_id, turn_id },
        ) && thread_id@ == t.thread_id@ && turn_id@ == t.turn_id@),
        (event matches TurnEvent::Reported(Ok(_))) && t.stage is Linking ==> (
        action matches TurnAction::Report(TaskExecutionEvent::Status { message }) && message@
            == "Task "@ + t.task_id@ + " started"@),
        event is Slept && (!cancelled || t.interrupted) ==> action == (TurnAction::Read {
            since: t.seen,
        }),
        event is Slept && cancelled && !t.interrupted ==> action is Interrupt && next.interrupted,
        event is Interrupted && t.stage is Interrupting ==> (action matches TurnAction::Report(
            TaskExecutionEvent::Status { message },
        ) && message@ == "Cancellation requested"@),
        (event matches TurnEvent::Read(Ok(events)) && events@.len() > 0) ==> (
        event matches TurnEvent::Read(Ok(events)) && (action matches TurnAction::Report(
            TaskExecutionEvent::RuntimeEvent { seq, event: name, .. },
        ) && seq == events@[0].seq && name@ == events@[0].event@ && next.batch@ == events@.skip(1)
            && next.seen >= t.seen && next.seen >= events@[0].seq && (next.seen == t.seen
            || next.seen == events@[0].seq))),
        (event matches TurnEvent::Read(Ok(events)) && events@.len() == 0 && t.ended is None)
            ==> action is Sleep,
        (event matches TurnEvent::Read(Ok(events)) && events@.len() == 0) && t.ended is Some ==> (
        action matches TurnAction::Finish(r) && is_end_result(t.ended->Some_0, t.text@, r)),
        (event matches TurnEvent::Reported(Ok(_))) ==> (t.stage
            matches TurnStage::ReportingEvent(Note::Message(content)) ==> next.text@ == t.text@
            + content@ && (action matches TurnAction::Report(
            TaskExecutionEvent::MessageDelta { content: c },
        ) && c@ == content@)),
        (event matches TurnEvent::Reported(Ok(_))) ==> (t.stage
            matches TurnStage::ReportingEvent(Note::Report(report)) ==> action
            == TurnAction::Report(report) && next.text@ == t.text@),
        (event matches TurnEvent::Reported(Ok(_))) ==> (t.stage
            matches TurnStage::ReportingEvent(Note::Ended(end)) ==> next.ended == Some(end)),
{
    if let TurnEvent::Read(Ok(events)) = event {
        if events@.len() > 0 {
            assert(events@.drop_first() =~= events@.skip(1));
        }
    }
}

// The launch -----------------------------------------------------------------
/// The thread and the turn of a task are asked for with the task's own fields.
pub proof fn launches_hand_on_their_task(
    task: ExecutionTask,
    thread: ThreadRequest,
    turn: TurnRequest,
)
    ensures
        is_thread_request(thread, task) ==> thread.model@ == task.model@ && thread.workspace@
            == task.workspace@ && thread.mode@ == task.mode_label@ && thread.allow_shell
            == task.allow_shell && thread.trust_mode == task.trust_mode && thread.auto_approve
            == task.auto_approve && !thread.archived && thread.task_id@ == task.id@,
        is_turn_request(turn, task) ==> turn.prompt@ == task.prompt@ && turn.input_summary@
            == summary_of(task.prompt@, 240) && turn.model@ == task.model@ && turn.mode@
            == task.mode_label@ && turn.allow_shell == task.allow_shell && turn.trust_mode
            == task.trust_mode && turn.auto_approve == task.auto_approve,
{
}

/// What follows each event in a launch: the new thread is reported, then the turn is started on it
/// with the task's prompt, then it is followed from its first event. What cannot be had ends the
/// task as failed, with the reason.
pub proof fn launches_take_one_course(
    l: Launch,
    event: LaunchEvent,
    next: Launch,
    action: LaunchAction,
)
    requires
        l.expects(event),
        launch_step(l, event, next, action),
    ensures
        next.task == l.task,
        event matches LaunchEvent::ThreadCreated(Ok(thread)) ==> (
        action matches LaunchAction::Report(TaskExecutionEvent::ThreadCreated { thread_id })
            && thread_id@ == thread@),
        event matches LaunchEvent::ThreadCreated(Err(why)) ==> (action matches LaunchAction::Finish(
            r,
        ) && r.status is Failed && r.result_text is None && (r.error matches Some(words) && words@
            == "Failed to create runtime thread: "@ + why@)),
        (event matches LaunchEvent::Reported(Ok(_))) ==> (
        l.stage matches LaunchStage::Reporting { thread_id: thread } && (
        action matches LaunchAction::StartTurn { thread_id, request } && thread_id@ == thread@
            && request.prompt@ == l.task.prompt@ && request.model@ == l.task.model@ && request.mode@
            == l.task.mode_label@ && request.allow_shell == l.task.allow_shell && request.trust_mode
            == l.task.trust_mode && request.auto_approve == l.task.auto_approve)),
        event matches LaunchEvent::Reported(Err(error)) ==> (action matches LaunchAction::Finish(r)
            && is_reporting_failure(r, error, Seq::empty())),
        event matches LaunchEvent::TurnStarted(Err(why)) ==> (action matches LaunchAction::Finish(r)
            && r.status is Failed && r.result_text is None && (r.error matches Some(words) && words@
            == "Failed to start task: "@ + why@)),
        event matches LaunchEvent::TurnStarted(Ok(turn)) ==> (
        l.stage matches LaunchStage::Starting { thread_id: thread } && (
        action matches LaunchAction::Drive(active) && active.task_id@ == l.task.id@
            && active.thread_id@ == thread@ && active.turn_id@ == turn@ && active.seen == 0
            && active.text@.len() == 0 && !active.interrupted && active.ended is None)),
{
}

// Workers and ends -----------------------------------------------------------
/// What follows each event for a worker.
pub proof fn workers_take_one_course(stage: WorkerStage)
    ensures
        worker_step(stage, WorkerEvent::Turn { shutdown: true }).1 is Exit,
        worker_step(stage, WorkerEvent::Turn { shutdown: false }).1 is Look,
        worker_step(stage, WorkerEvent::Looked { found: true }).1 is StoreStart,
        worker_step(stage, WorkerEvent::Looked { found: false }).1 is Wait,
        worker_step(stage, WorkerEvent::StartStored { stored: true }).1 is Execute,
        worker_step(stage, WorkerEvent::StartStored { stored: false }).1 is BackOff,
        worker_step(stage, WorkerEvent::Executed).1 is Again,
        worker_step(stage, WorkerEvent::Woken { shutdown: true }).1 is Exit,
        worker_step(stage, WorkerEvent::Woken { shutdown: false }).1 is Again,
{
}

/// What follows each event when a task ends: a large result is put into a file first, and what
/// fails is tried again until the manager shuts down.
pub proof fn ends_take_one_course(s: FinishMove)
    requires
        s.is_step(),
    ensures
        s.after.task_id == s.before.task_id && s.after.result == s.before.result
            && s.after.mode_label == s.before.mode_label && s.after.now == s.before.now,
        s.event is Begun ==> (match s.before.result.result_text {
            Some(text) => if utf8_len(text@) >= 1_200 {
                s.action is WriteArtifact
            } else {
                s.action is Save
            },
            None => s.action is Save,
        }),
        s.event matches FinishEvent::ArtifactWritten(Ok(path)) ==> s.action is Save
            && s.after.detail_path == Some(path),
        (s.event matches FinishEvent::ArtifactWritten(Err(_))) || (s.event matches FinishEvent::Saved(
            Err(_),
        )) ==> s.action is BackOff && s.after.detail_path == s.before.detail_path,
        (s.event matches FinishEvent::Saved(Ok(_))) || s.event is Gone ==> s.action is Finish,
        s.event == (FinishEvent::Waited { shutdown: false }) ==> (if s.before.stage
            is ArtifactBackOff {
            s.action is WriteArtifact
        } else {
            s.action is Save
        }),
        s.event == (FinishEvent::Waited { shutdown: true }) ==> s.action is Fail,
        s.event == (FinishEvent::Waited { shutdown: true }) ==> (s.before.stage
            matches FinishStage::ArtifactBackOff { error } ==> (s.action matches FinishAction::Fail(
            e,
        ) && e@ == "Task manager shut down before terminal "@ + "artifact"@ + " for "@
            + s.before.task_id@ + " was durable: "@ + error@)),
        s.event == (FinishEvent::Waited { shutdown: true }) ==> (s.before.stage
            matches FinishStage::SaveBackOff { error } ==> (s.action matches FinishAction::Fail(e)
            && e@ == "Task manager shut down before terminal "@ + "state"@ + " for "@
            + s.before.task_id@ + " was durable: "@ + error@)),
{
}

/// What follows each event in a deletion of tasks: marker, artifacts, record, and only then the
/// task is forgotten; then the next one's turn comes.
pub proof fn deletions_take_one_course(s: PruneMove)
    requires
        s.is_step(),
    ensures
        (s.event matches PruneEvent::Marked(Ok(_))) ==> (
        s.action matches PruneAction::RemoveArtifacts { task_id } && task_id@
            == s.before.left@[0]@),
        (s.event matches PruneEvent::ArtifactsRemoved(Ok(_))) ==> (
        s.action matches PruneAction::RemoveRecord { task_id } && task_id@ == s.before.left@[0]@),
        (s.event matches PruneEvent::RecordRemoved(Ok(_))) ==> (
        s.action matches PruneAction::Forget { task_id } && task_id@ == s.before.left@[0]@ && texts(
            s.after.left@,
        ) == texts(s.before.left@).skip(1) && texts(s.after.pruned@) == texts(
            s.before.pruned@,
        ).push(s.before.left@[0]@)),
        s.event is Begun || s.event is Unmarked ==> s.after.left == s.before.left && s.after.pruned
            == s.before.pruned && (if s.before.left@.len() == 0 {
            s.action is Finish
        } else {
            s.action is Fail || (s.action matches PruneAction::Mark { task_id } && task_id@
                == s.before.left@[0]@)
        }),
        s.event matches PruneEvent::Marked(Err(why)) ==> (s.action matches PruneAction::Fail(e)
            && e@ == why@),
        s.event matches PruneEvent::ArtifactsRemoved(Err(why)) ==> (
        s.action matches PruneAction::Fail(e) && e@ == why@),
        s.event matches PruneEvent::RecordRemoved(Err(why)) ==> (
        s.action matches PruneAction::Fail(e) && e@ == why@),
{
    assert(texts(s.before.left@).len() == s.before.left@.len());
    if s.before.left@.len() > 0 {
        assert(texts(s.before.left@)[0] == s.before.left@[0]@);
        assert(texts(s.before.left@).drop_first() =~= texts(s.before.left@).skip(1));
    }
}

/// A turn whose report does not come through, or whose events cannot be read, is given up with a
/// failure that says so; the runtime is told to stop first, unless it was. What was decided is what
/// the turn ends with.
pub proof fn faulty_turns_are_given_up(
    t: ActiveTurn,
    event: TurnEvent,
    cancelled: bool,
    next: ActiveTurn,
    action: TurnAction,
)
    requires
        t.expects(event),
        turn_step(t, event, cancelled, next, action),
    ensures
        event matches TurnEvent::Reported(Err(error)) ==> exists|r: TaskExecutionResult| #[trigger]
            is_reporting_failure(r, error, t.text@) && (if t.interrupted {
                action == TurnAction::Finish(r)
            } else {
                action is Interrupt && next.stage == TurnStage::Aborting(r) && next.interrupted
            }),
        event matches TurnEvent::Read(Err(why)) ==> exists|r: TaskExecutionResult| #[trigger]
            is_read_failure(t.text@, why@, r) && (if t.interrupted {
                action == TurnAction::Finish(r)
            } else {
                action is Interrupt && next.stage == TurnStage::Aborting(r) && next.interrupted
            }),
        event is Interrupted ==> (t.stage matches TurnStage::Aborting(r) ==> action
            == TurnAction::Finish(r)),
{
}

/// What has been read is looked at in its order, one event after the other, and each is reported
/// before anything else is done about it; the answer grows by messages alone.
pub proof fn events_are_reported_in_order(
    t: ActiveTurn,
    event: TurnEvent,
    cancelled: bool,
    next: ActiveTurn,
    action: TurnAction,
)
    requires
        t.expects(event),
        turn_step(t, event, cancelled, next, action),
    ensures
        ((event matches TurnEvent::Reported(Ok(_))) && (t.stage is ReportingNote || (
        t.stage matches TurnStage::ReportingEvent(Note::Silent)) || (
        t.stage matches TurnStage::ReportingEvent(Note::Ended(_))))) && t.batch@.len() > 0 ==> (
        action matches TurnAction::Report(
            TaskExecutionEvent::RuntimeEvent { seq, event: name, summary },
        ) && seq == t.batch@[0].seq && name@ == t.batch@[0].event@ && summary@ == summary_of(
            json_text(t.batch@[0].payload),
            240,
        ) && next.batch@ == t.batch@.skip(1)),
        next.stage matches TurnStage::ReportingEvent(note) ==> exists|e: RuntimeEventRecord|
            #[trigger] note_of(e, note) && (action matches TurnAction::Report(
                TaskExecutionEvent::RuntimeEvent { seq, event: name, .. },
            ) && seq == e.seq && name@ == e.event@),
        (event matches TurnEvent::Reported(Ok(_))) && t.stage is Starting && (!cancelled
            || t.interrupted) ==> action == (TurnAction::Read { since: t.seen }),
        (event matches TurnEvent::Reported(Ok(_))) && t.stage is Starting && cancelled
            && !t.interrupted ==> action is Interrupt,
        (event matches TurnEvent::Reported(Ok(_))) && t.stage is ReportingCancel ==> action == (
        TurnAction::Read { since: t.seen }),
        !(t.stage matches TurnStage::ReportingEvent(Note::Message(_))) ==> next.text@ == t.text@,
        !(t.stage matches TurnStage::ReportingEvent(Note::Ended(_))) ==> next.ended == t.ended,
        next.seen >= t.seen,
{
    if t.batch@.len() > 0 {
        assert(t.batch@.drop_first() =~= t.batch@.skip(1));
    }
    if let TurnStage::ReportingEvent(note) = next.stage {
        if let TurnEvent::Read(Ok(events)) = event {
            assert(note_of(events@[0], note));
        } else {
            assert(note_of(t.batch@[0], note));
        }
    }
}

} // verus!
