//! The course of one task on a runtime thread.
//!
//! A [`Launch`] brings a task from its record to a running turn. An [`ActiveTurn`]
//! then follows the turn's events until it ends. Both only decide: each step takes
//! what happened and says what to do next.
use vstd::prelude::*;
use vstd::string::*;

use crate::json::{field, json_text, or_empty, render, text_field, Json, Member};
use crate::task::{
    if_not_blank, is_reporting_failure, keep_if_not_blank, summarize_text, summary_of,
    ExecutionTask, TaskExecutionEvent, TaskExecutionReportError, TaskExecutionResult, TaskStatus,
    TIMELINE_SUMMARY_LIMIT,
};
use crate::text::{
    copy_text, join2, join3, same_text, split, split_on, text_opt, texts, trim, trimmed,
};

verus! {

/// An event of the runtime.
#[derive(Debug)]
pub struct RuntimeEventRecord {
    pub seq: u64,
    pub event: String,
    pub item_id: Option<String>,
    pub payload: Json,
}

/// How a turn ended.
#[derive(Debug, Clone, Copy, PartialEq, Eq, Structural)]
pub enum TurnOutcome {
    Completed,
    Interrupted,
    Canceled,
    Failed,
}

/// The end of a turn, with the error that the runtime gave.
#[derive(Debug, Clone)]
pub struct TurnEnd {
    pub outcome: TurnOutcome,
    pub error: Option<String>,
}

/// What a runtime event means for the task.
#[derive(Debug)]
pub enum Note {
    /// Nothing beyond its line in the timeline.
    Silent,
    /// More of the answer.
    Message(String),
    /// Something to report.
    Report(TaskExecutionEvent),
    /// The turn is over.
    Ended(TurnEnd),
}

// What an event means --------------------------------------------------------
/// The first of two texts that is there, or the empty text.
pub open spec fn first_text(a: Option<Seq<char>>, b: Option<Seq<char>>) -> Seq<char> {
    match a {
        Some(s) => s,
        None => or_empty(b),
    }
}

/// The name of a tool: what stands before the first colon of its summary.
pub open spec fn tool_name(summary: Option<Seq<char>>) -> Seq<char> {
    match summary {
        Some(s) => trimmed(split_on(s, ':')[0]),
        None => "tool"@,
    }
}

/// Whether an item of this kind is a tool call.
pub open spec fn is_tool_kind(kind: Seq<char>) -> bool {
    kind == "tool_call"@ || kind == "file_change"@ || kind == "command_execution"@
}

/// What a piece of an item means.
pub open spec fn delta_note(event: RuntimeEventRecord, note: Note) -> bool {
    let kind = or_empty(text_field(event.payload, "kind"@));
    let delta = text_field(event.payload, "delta"@);
    if kind == "agent_message"@ {
        match delta {
            Some(content) => note matches Note::Message(c) && c@ == content,
            None => note is Silent,
        }
    } else if kind == "tool_call"@ {
        note matches Note::Report(TaskExecutionEvent::ToolProgress { id, output }) && id@ == or_empty(
            text_opt(event.item_id),
        ) && output@ == or_empty(delta)
    } else {
        note is Silent
    }
}

/// What the start of an item means.
pub open spec fn started_note(event: RuntimeEventRecord, note: Note) -> bool {
    match field(event.payload, "tool"@) {
        None => note is Silent,
        Some(tool) => {
            &&& note matches Note::Report(TaskExecutionEvent::ToolStarted { id, name, input })
            &&& id@ == or_empty(text_field(tool, "id"@))
            &&& name@ == or_empty(text_field(tool, "name"@))
            &&& match field(tool, "input"@) {
                Some(value) => input == value,
                None => input matches Json::Object(members) && members@.len() == 0,
            }
        },
    }
}

/// What the end of an item means.
pub open spec fn finished_note(item: Json, success: bool, note: Note) -> bool {
    let kind = or_empty(text_field(item, "kind"@));
    let words = first_text(text_field(item, "detail"@), text_field(item, "summary"@));
    if is_tool_kind(kind) {
        &&& note matches Note::Report(
            TaskExecutionEvent::ToolCompleted { id, name, success: ok, output, metadata },
        )
        &&& id@ == or_empty(text_field(item, "id"@))
        &&& name@ == tool_name(text_field(item, "summary"@))
        &&& ok == success
        &&& output@ == or_empty(text_field(item, "detail"@))
        &&& metadata == field(item, "metadata"@)
    } else if kind == "status"@ {
        note matches Note::Report(TaskExecutionEvent::Status { message }) && message@ == words
    } else if kind == "error"@ {
        note matches Note::Report(TaskExecutionEvent::Error { message }) && message@ == words
    } else {
        note is Silent
    }
}

/// The outcome that a word stands for; a word that is missing or unknown means
/// failure.
pub open spec fn outcome_of(word: Option<Seq<char>>) -> TurnOutcome {
    match word {
        Some(w) => if w == "completed"@ {
            TurnOutcome::Completed
        } else if w == "interrupted"@ {
            TurnOutcome::Interrupted
        } else if w == "canceled"@ {
            TurnOutcome::Canceled
        } else {
            TurnOutcome::Failed
        },
        None => TurnOutcome::Failed,
    }
}

/// What the end of the turn means.
pub open spec fn turn_note(event: RuntimeEventRecord, note: Note) -> bool {
    match field(event.payload, "turn"@) {
        None => note matches Note::Ended(end) && end.outcome is Completed && end.error is None,
        Some(turn) => note matches Note::Ended(end) && end.outcome == outcome_of(
            text_field(turn, "status"@),
        ) && text_opt(end.error) == text_field(turn, "error"@),
    }
}

/// What [`interpret`] makes of an event.
pub open spec fn note_of(event: RuntimeEventRecord, note: Note) -> bool {
    if event.event@ == "item.delta"@ {
        delta_note(event, note)
    } else if event.event@ == "item.started"@ {
        started_note(event, note)
    } else if event.event@ == "item.completed"@ || event.event@ == "item.failed"@ {
        match field(event.payload, "item"@) {
            None => note is Silent,
            Some(item) => finished_note(item, event.event@ == "item.completed"@, note),
        }
    } else if event.event@ == "turn.completed"@ {
        turn_note(event, note)
    } else {
        note is Silent
    }
}

fn interpret_delta(event: &RuntimeEventRecord) -> (r: Note)
    ensures
        delta_note(*event, r),
{
    let kind = event.payload.text_or_empty("kind");
    if same_text(kind.as_str(), "agent_message") {
        match event.payload.text("delta") {
            Some(content) => Note::Message(content),
            None => Note::Silent,
        }
    } else if same_text(kind.as_str(), "tool_call") {
        let id = match &event.item_id {
            Some(id) => copy_text(id.as_str()),
            None => String::new(),
        };
        Note::Report(
            TaskExecutionEvent::ToolProgress { id, output: event.payload.text_or_empty("delta") },
        )
    } else {
        Note::Silent
    }
}

fn interpret_finished(item: Json, success: bool) -> (r: Note)
    ensures
        finished_note(item, success, r),
{
    let kind = item.text_or_empty("kind");
    if same_text(kind.as_str(), "tool_call") || same_text(kind.as_str(), "file_change") || same_text(
        kind.as_str(),
        "command_execution",
    ) {
        let id = item.text_or_empty("id");
        let name = match item.text("summary") {
            Some(summary) => {
                let parts = split(summary.as_str(), ':');
                assert(texts(parts@)[0] == parts@[0]@);
                trim(parts[0].as_str())
            },
            None => copy_text("tool"),
        };
        let output = item.text_or_empty("detail");
        let metadata = item.take("metadata");
        return Note::Report(
            TaskExecutionEvent::ToolCompleted { id, name, success, output, metadata },
        );
    }
    let message = match item.text("detail") {
        Some(words) => words,
        None => item.text_or_empty("summary"),
    };
    if same_text(kind.as_str(), "status") {
        Note::Report(TaskExecutionEvent::Status { message })
    } else if same_text(kind.as_str(), "error") {
        Note::Report(TaskExecutionEvent::Error { message })
    } else {
        Note::Silent
    }
}

fn read_outcome(word: &Option<String>) -> (r: TurnOutcome)
    ensures
        r == outcome_of(text_opt(*word)),
{
    match word {
        Some(w) => if same_text(w.as_str(), "completed") {
            TurnOutcome::Completed
        } else if same_text(w.as_str(), "interrupted") {
            TurnOutcome::Interrupted
        } else if same_text(w.as_str(), "canceled") {
            TurnOutcome::Canceled
        } else {
            TurnOutcome::Failed
        },
        None => TurnOutcome::Failed,
    }
}

/// What a runtime event means for the task.
pub fn interpret(event: RuntimeEventRecord) -> (r: Note)
    ensures
        note_of(event, r),
{
    if same_text(event.event.as_str(), "item.delta") {
        return interpret_delta(&event);
    }
    if same_text(event.event.as_str(), "item.started") {
        return match event.payload.take("tool") {
            None => Note::Silent,
            Some(tool) => {
                let id = tool.text_or_empty("id");
                let name = tool.text_or_empty("name");
                let input = match tool.take("input") {
                    Some(input) => input,
                    None => {
                        let members: Vec<Member> = Vec::new();
                        Json::Object(members)
                    },
                };
                Note::Report(TaskExecutionEvent::ToolStarted { id, name, input })
            },
        };
    }
    let completed = same_text(event.event.as_str(), "item.completed");
    if completed || same_text(event.event.as_str(), "item.failed") {
        return match event.payload.take("item") {
            None => Note::Silent,
            Some(item) => interpret_finished(item, completed),
        };
    }
    if same_text(event.event.as_str(), "turn.completed") {
        return match event.payload.get("turn") {
            None => Note::Ended(TurnEnd { outcome: TurnOutcome::Completed, error: None }),
            Some(turn) => Note::Ended(
                TurnEnd {
                    outcome: read_outcome(&turn.text("status")),
                    error: turn.text("error"),
                },
            ),
        };
    }
    Note::Silent
}

// The turn -------------------------------------------------------------------
/// Where an active turn stands: what it waits for.
#[derive(Debug)]
pub enum TurnStage {
    /// Nothing has been done yet.
    New,
    /// The link to thread and turn is being reported.
    Linking,
    /// The start is being reported.
    Starting,
    /// The runtime is being interrupted, because the task was canceled.
    Interrupting,
    /// The request to cancel is being reported.
    ReportingCancel,
    /// New events are being read.
    Reading,
    /// A runtime event is being reported; the note says what follows.
    ReportingEvent(Note),
    /// What followed from an event is being reported.
    ReportingNote,
    /// Nothing was new.
    Sleeping,
    /// The turn is being abandoned, and the runtime interrupted.
    Aborting(TaskExecutionResult),
    /// The result has been given.
    Done,
}

/// What happened since the last step.
#[derive(Debug)]
pub enum TurnEvent {
    Begun,
    Reported(Result<(), TaskExecutionReportError>),
    /// The runtime was told to stop, whether or not it could.
    Interrupted,
    /// The events after the last one seen, or why they could not be read.
    Read(Result<Vec<RuntimeEventRecord>, String>),
    Slept,
}

/// What to do next.
#[derive(Debug)]
pub enum TurnAction {
    Report(TaskExecutionEvent),
    Interrupt,
    Read { since: u64 },
    Sleep,
    Finish(TaskExecutionResult),
}

/// A turn that is being followed.
#[derive(Debug)]
pub struct ActiveTurn {
    pub task_id: String,
    pub thread_id: String,
    pub turn_id: String,
    pub stage: TurnStage,
    /// The runtime has been told to stop.
    pub interrupted: bool,
    /// The answer so far.
    pub text: String,
    /// The number of the last event that was seen.
    pub seen: u64,
    /// How the turn ended, once it did.
    pub ended: Option<TurnEnd>,
    /// Events that were read and not yet looked at.
    pub batch: Vec<RuntimeEventRecord>,
}

/// The result of a turn that came to its own end.
pub open spec fn is_end_result(end: TurnEnd, text: Seq<char>, r: TaskExecutionResult) -> bool {
    &&& text_opt(r.result_text) == if_not_blank(text)
    &&& match end.outcome {
        TurnOutcome::Completed => r.status is Completed && r.error is None,
        TurnOutcome::Interrupted => r.status is Canceled && r.error is None,
        TurnOutcome::Canceled => r.status is Canceled && r.error is None,
        TurnOutcome::Failed => r.status is Failed && text_opt(r.error) == match text_opt(end.error) {
            Some(error) => Some(error),
            None => Some("Task ended unexpectedly"@),
        },
    }
}

/// The result of a turn whose events could not be read.
pub open spec fn is_read_failure(text: Seq<char>, why: Seq<char>, r: TaskExecutionResult) -> bool {
    &&& r.status is Failed
    &&& text_opt(r.result_text) == if_not_blank(text)
    &&& text_opt(r.error) == Some("Failed to read runtime events: "@ + why)
}

/// The turn is the same one, and has seen and heard the same.
pub open spec fn same_turn(a: ActiveTurn, b: ActiveTurn) -> bool {
    &&& a.task_id == b.task_id && a.thread_id == b.thread_id && a.turn_id == b.turn_id
    &&& a.text@ == b.text@
    &&& a.seen == b.seen
    &&& a.ended == b.ended
    &&& a.batch@ == b.batch@
}

/// The turn looks for new events; first it passes a cancellation on.
pub open spec fn looks_again(
    t: ActiveTurn,
    cancelled: bool,
    next: ActiveTurn,
    action: TurnAction,
) -> bool {
    &&& same_turn(t, next)
    &&& if cancelled && !t.interrupted {
        next.interrupted && next.stage is Interrupting && action is Interrupt
    } else {
        next.interrupted == t.interrupted && next.stage is Reading && action == TurnAction::Read {
            since: t.seen,
        }
    }
}

/// The turn is abandoned with `result`; the runtime is told to stop unless it was.
pub open spec fn abandons(
    t: ActiveTurn,
    result: TaskExecutionResult,
    next: ActiveTurn,
    action: TurnAction,
) -> bool {
    &&& same_turn(t, next)
    &&& next.interrupted
    &&& if t.interrupted {
        next.stage is Done && action == TurnAction::Finish(result)
    } else {
        next.stage == TurnStage::Aborting(result) && action is Interrupt
    }
}

/// The turn goes on with the events that it has read.
pub open spec fn goes_on(t: ActiveTurn, next: ActiveTurn, action: TurnAction) -> bool {
    &&& next.interrupted == t.interrupted
    &&& if t.batch@.len() > 0 {
        let event = t.batch@[0];
        &&& next.task_id == t.task_id && next.thread_id == t.thread_id && next.turn_id == t.turn_id
        &&& next.text@ == t.text@
        &&& next.ended == t.ended
        &&& next.batch@ == t.batch@.drop_first()
        &&& next.seen == if event.seq > t.seen {
            event.seq
        } else {
            t.seen
        }
        &&& next.stage matches TurnStage::ReportingEvent(note) && note_of(event, note)
        &&& action matches TurnAction::Report(
            TaskExecutionEvent::RuntimeEvent { seq, event: name, summary },
        ) && seq == event.seq && name@ == event.event@ && summary@ == summary_of(
            json_text(event.payload),
            TIMELINE_SUMMARY_LIMIT,
        )
    } else if t.ended is Some {
        &&& same_turn(t, next)
        &&& next.stage is Done
        &&& action matches TurnAction::Finish(result) && is_end_result(t.ended->Some_0, t.text@, result)
    } else {
        same_turn(t, next) && next.stage is Sleeping && action is Sleep
    }
}

/// The turn acts on what an event meant.
pub open spec fn acts_on(t: ActiveTurn, note: Note, next: ActiveTurn, action: TurnAction) -> bool {
    match note {
        Note::Silent => goes_on(t, next, action),
        Note::Ended(end) => goes_on(ActiveTurn { ended: Some(end), ..t }, next, action),
        Note::Report(event) => same_turn(t, next) && next.interrupted == t.interrupted
            && next.stage is ReportingNote && action == TurnAction::Report(event),
        Note::Message(content) => {
            &&& next.task_id == t.task_id && next.thread_id == t.thread_id && next.turn_id
                == t.turn_id
            &&& next.text@ == t.text@ + content@
            &&& next.seen == t.seen && next.ended == t.ended && next.batch@ == t.batch@
            &&& next.interrupted == t.interrupted
            &&& next.stage is ReportingNote
            &&& action matches TurnAction::Report(TaskExecutionEvent::MessageDelta { content: c })
                && c@ == content@
        },
    }
}

/// The turn reports `message` as its status and waits in a new stage.
pub open spec fn reports_status(
    t: ActiveTurn,
    message: Seq<char>,
    next: ActiveTurn,
    action: TurnAction,
) -> bool {
    &&& same_turn(t, next)
    &&& next.interrupted == t.interrupted
    &&& action matches TurnAction::Report(TaskExecutionEvent::Status { message: m }) && m@ == message
}

/// What a step does after a report came through.
pub open spec fn after_report(
    t: ActiveTurn,
    cancelled: bool,
    next: ActiveTurn,
    action: TurnAction,
) -> bool {
    match t.stage {
        TurnStage::Linking => reports_status(t, "Task "@ + t.task_id@ + " started"@, next, action)
            && next.stage is Starting,
        TurnStage::Starting => looks_again(t, cancelled, next, action),
        TurnStage::ReportingCancel => same_turn(t, next) && next.interrupted == t.interrupted
            && next.stage is Reading && action == (TurnAction::Read { since: t.seen }),
        TurnStage::ReportingEvent(note) => acts_on(t, note, next, action),
        TurnStage::ReportingNote => goes_on(t, next, action),
        _ => false,
    }
}

/// What [`ActiveTurn::step`] does.
pub open spec fn turn_step(
    t: ActiveTurn,
    event: TurnEvent,
    cancelled: bool,
    next: ActiveTurn,
    action: TurnAction,
) -> bool {
    match event {
        TurnEvent::Begun => {
            &&& same_turn(t, next)
            &&& next.interrupted == t.interrupted
            &&& next.stage is Linking
            &&& action matches TurnAction::Report(
                TaskExecutionEvent::ThreadLinked { thread_id, turn_id },
            ) && thread_id@ == t.thread_id@ && turn_id@ == t.turn_id@
        },
        TurnEvent::Reported(Ok(_)) => after_report(t, cancelled, next, action),
        TurnEvent::Reported(Err(error)) => exists|result: TaskExecutionResult| #[trigger]
            is_reporting_failure(result, error, t.text@) && abandons(t, result, next, action),
        TurnEvent::Interrupted => match t.stage {
            TurnStage::Aborting(result) => same_turn(t, next) && next.interrupted == t.interrupted
                && next.stage is Done && action == TurnAction::Finish(result),
            _ => reports_status(t, "Cancellation requested"@, next, action)
                && next.stage is ReportingCancel,
        },
        TurnEvent::Read(Err(why)) => exists|result: TaskExecutionResult| #[trigger]
            is_read_failure(t.text@, why@, result) && abandons(t, result, next, action),
        TurnEvent::Read(Ok(events)) => goes_on(ActiveTurn { batch: events, ..t }, next, action),
        TurnEvent::Slept => looks_again(t, cancelled, next, action),
    }
}

impl ActiveTurn {
    /// A turn that was just started.
    pub fn new(task_id: String, thread_id: String, turn_id: String) -> (r: Self)
        ensures
            r.task_id == task_id && r.thread_id == thread_id && r.turn_id == turn_id,
            r.stage is New,
            !r.interrupted,
            r.text@.len() == 0,
            r.seen == 0,
            r.ended is None,
            r.batch@.len() == 0,
    {
        ActiveTurn {
            task_id,
            thread_id,
            turn_id,
            stage: TurnStage::New,
            interrupted: false,
            text: String::new(),
            seen: 0,
            ended: None,
            batch: Vec::new(),
        }
    }

    /// Whether the turn waits for an event of this sort.
    pub open spec fn expects(self, event: TurnEvent) -> bool {
        match event {
            TurnEvent::Begun => self.stage is New,
            TurnEvent::Reported(_) => self.stage is Linking || self.stage is Starting
                || self.stage is ReportingCancel || self.stage is ReportingEvent
                || self.stage is ReportingNote,
            TurnEvent::Interrupted => self.stage is Interrupting || self.stage is Aborting,
            TurnEvent::Read(_) => self.stage is Reading,
            TurnEvent::Slept => self.stage is Sleeping,
        }
    }

    fn look_again(&mut self, cancelled: bool) -> (r: TurnAction)
        ensures
            looks_again(*old(self), cancelled, *final(self), r),
    {
        if cancelled && !self.interrupted {
            self.interrupted = true;
            self.stage = TurnStage::Interrupting;
            TurnAction::Interrupt
        } else {
            self.stage = TurnStage::Reading;
            TurnAction::Read { since: self.seen }
        }
    }

    fn abandon(&mut self, result: TaskExecutionResult) -> (r: TurnAction)
        ensures
            abandons(*old(self), result, *final(self), r),
    {
        if self.interrupted {
            self.stage = TurnStage::Done;
            TurnAction::Finish(result)
        } else {
            self.interrupted = true;
            self.stage = TurnStage::Aborting(result);
            TurnAction::Interrupt
        }
    }

    fn go_on(&mut self) -> (r: TurnAction)
        ensures
            goes_on(*old(self), *final(self), r),
    {
        if self.batch.len() > 0 {
            let ghost before = self.batch@;
            let event = self.batch.remove(0);
            assert(self.batch@ =~= before.drop_first());
            if event.seq > self.seen {
                self.seen = event.seq;
            }
            let seq: u64 = event.seq;
            let name = copy_text(event.event.as_str());
            let summary = summarize_text(render(&event.payload).as_str(), TIMELINE_SUMMARY_LIMIT);
            self.stage = TurnStage::ReportingEvent(interpret(event));
            return TurnAction::Report(
                TaskExecutionEvent::RuntimeEvent { seq, event: name, summary },
            );
        }
        match &self.ended {
            Some(end) => {
                let result = end_result(end, self.text.as_str());
                self.stage = TurnStage::Done;
                TurnAction::Finish(result)
            },
            None => {
                self.stage = TurnStage::Sleeping;
                TurnAction::Sleep
            },
        }
    }

    fn act_on(&mut self, note: Note) -> (r: TurnAction)
        ensures
            acts_on(*old(self), note, *final(self), r),
    {
        match note {
            Note::Silent => self.go_on(),
            Note::Ended(end) => {
                self.ended = Some(end);
                self.go_on()
            },
            Note::Report(event) => {
                self.stage = TurnStage::ReportingNote;
                TurnAction::Report(event)
            },
            Note::Message(content) => {
                self.text.append(content.as_str());
                self.stage = TurnStage::ReportingNote;
                TurnAction::Report(TaskExecutionEvent::MessageDelta { content })
            },
        }
    }

    fn report_status(&mut self, message: String, stage: TurnStage) -> (r: TurnAction)
        ensures
            reports_status(*old(self), message@, *final(self), r),
            final(self).stage == stage,
    {
        self.stage = stage;
        TurnAction::Report(TaskExecutionEvent::Status { message })
    }

    fn go_on_after_report(&mut self, cancelled: bool) -> (r: TurnAction)
        requires
            old(self).expects(TurnEvent::Reported(Ok(()))),
        ensures
            after_report(*old(self), cancelled, *final(self), r),
    {
        let mut stage = TurnStage::Done;
        std::mem::swap(&mut stage, &mut self.stage);
        match stage {
            TurnStage::Linking => {
                let message = join3("Task ", self.task_id.as_str(), " started");
                self.report_status(message, TurnStage::Starting)
            },
            TurnStage::Starting => self.look_again(cancelled),
            TurnStage::ReportingCancel => {
                self.stage = TurnStage::Reading;
                TurnAction::Read { since: self.seen }
            },
            TurnStage::ReportingEvent(note) => self.act_on(note),
            _ => self.go_on(),
        }
    }

    /// Takes what happened and says what to do next. `cancelled` is whether the task
    /// has been canceled by now.
    pub fn step(&mut self, event: TurnEvent, cancelled: bool) -> (r: TurnAction)
        requires
            old(self).expects(event),
        ensures
            turn_step(*old(self), event, cancelled, *final(self), r),
    {
        match event {
            TurnEvent::Begun => {
                self.stage = TurnStage::Linking;
                TurnAction::Report(
                    TaskExecutionEvent::ThreadLinked {
                        thread_id: copy_text(self.thread_id.as_str()),
                        turn_id: copy_text(self.turn_id.as_str()),
                    },
                )
            },
            TurnEvent::Reported(Ok(_)) => self.go_on_after_report(cancelled),
            TurnEvent::Reported(Err(error)) => {
                let result = TaskExecutionResult::reporting_failed(&error, self.text.as_str());
                assert(is_reporting_failure(result, error, old(self).text@));
                self.abandon(result)
            },
            TurnEvent::Interrupted => {
                let mut stage = TurnStage::Done;
                std::mem::swap(&mut stage, &mut self.stage);
                match stage {
                    TurnStage::Aborting(result) => TurnAction::Finish(result),
                    _ => self.report_status(
                        copy_text("Cancellation requested"),
                        TurnStage::ReportingCancel,
                    ),
                }
            },
            TurnEvent::Read(Err(why)) => {
                let result = TaskExecutionResult {
                    status: TaskStatus::Failed,
                    result_text: keep_if_not_blank(self.text.as_str()),
                    error: Some(join2("Failed to read runtime events: ", why.as_str())),
                };
                assert(is_read_failure(old(self).text@, why@, result));
                self.abandon(result)
            },
            TurnEvent::Read(Ok(events)) => {
                self.batch = events;
                self.go_on()
            },
            TurnEvent::Slept => self.look_again(cancelled),
        }
    }
}

fn end_result(end: &TurnEnd, text: &str) -> (r: TaskExecutionResult)
    ensures
        is_end_result(*end, text@, r),
{
    let result_text = keep_if_not_blank(text);
    match end.outcome {
        TurnOutcome::Completed => TaskExecutionResult {
            status: TaskStatus::Completed,
            result_text,
            error: None,
        },
        TurnOutcome::Interrupted | TurnOutcome::Canceled => TaskExecutionResult {
            status: TaskStatus::Canceled,
            result_text,
            error: None,
        },
        TurnOutcome::Failed => TaskExecutionResult {
            status: TaskStatus::Failed,
            result_text,
            error: match &end.error {
                Some(error) => Some(copy_text(error.as_str())),
                None => Some(copy_text("Task ended unexpectedly")),
            },
        },
    }
}

// Laws -----------------------------------------------------------------------
/// The runtime is told to stop at most once: only by a step before which it had not
/// been told, and after which it has; and what was told stays told.
pub proof fn the_runtime_is_interrupted_once(
    t: ActiveTurn,
    event: TurnEvent,
    cancelled: bool,
    next: ActiveTurn,
    action: TurnAction,
)
    requires
        turn_step(t, event, cancelled, next, action),
    ensures
        action is Interrupt ==> !t.interrupted && next.interrupted,
        t.interrupted ==> next.interrupted,
{
}

/// A result is given only when the turn has ended by itself or the runtime has been
/// told to stop, and nothing follows it.
pub proof fn results_come_last(
    t: ActiveTurn,
    event: TurnEvent,
    cancelled: bool,
    next: ActiveTurn,
    action: TurnAction,
)
    requires
        t.expects(event),
        turn_step(t, event, cancelled, next, action),
        t.stage is Aborting ==> t.interrupted,
    ensures
        action is Finish ==> next.interrupted || next.ended is Some,
        action is Finish <==> next.stage is Done,
        next.stage is Aborting ==> next.interrupted,
        next.stage is Done ==> forall|later: TurnEvent| !#[trigger] next.expects(later),
{
}

/// The answer only grows, and the place in the event stream only moves on.
pub proof fn turns_only_move_on(
    t: ActiveTurn,
    event: TurnEvent,
    cancelled: bool,
    next: ActiveTurn,
    action: TurnAction,
)
    requires
        turn_step(t, event, cancelled, next, action),
    ensures
        t.seen <= next.seen,
        t.text@.is_prefix_of(next.text@),
        next.task_id == t.task_id && next.thread_id == t.thread_id && next.turn_id == t.turn_id,
{
}

/// A canceled task is passed on to the runtime before any more events are read.
pub proof fn cancellation_is_passed_on(
    t: ActiveTurn,
    event: TurnEvent,
    next: ActiveTurn,
    action: TurnAction,
)
    requires
        t.expects(event),
        turn_step(t, event, true, next, action),
        action is Read,
        t.stage is ReportingCancel ==> t.interrupted,
    ensures
        next.interrupted,
{
}

/// Where every report comes through and every read succeeds, a step asks for the
/// result only once the turn has ended.
pub proof fn a_turn_without_faults_ends_by_itself(
    t: ActiveTurn,
    event: TurnEvent,
    cancelled: bool,
    next: ActiveTurn,
    result: TaskExecutionResult,
)
    requires
        t.expects(event),
        turn_step(t, event, cancelled, next, TurnAction::Finish(result)),
        !(event matches TurnEvent::Reported(Err(_))),
        !(event matches TurnEvent::Read(Err(_))),
        t.stage !is Aborting,
    ensures
        next.ended is Some,
        is_end_result(next.ended->Some_0, next.text@, result),
{
}

// The launch -----------------------------------------------------------------
/// What a runtime thread for a task is created with.
#[derive(Debug, Clone)]
pub struct ThreadRequest {
    pub model: String,
    pub workspace: String,
    pub mode: String,
    pub allow_shell: bool,
    pub trust_mode: bool,
    pub auto_approve: bool,
    pub archived: bool,
    pub task_id: String,
}

/// What a turn on a thread is started with.
#[derive(Debug, Clone)]
pub struct TurnRequest {
    pub prompt: String,
    pub input_summary: String,
    pub model: String,
    pub mode: String,
    pub allow_shell: bool,
    pub trust_mode: bool,
    pub auto_approve: bool,
}

/// Where a launch stands: what it waits for.
#[derive(Debug)]
pub enum LaunchStage {
    /// The thread is being created.
    Creating,
    /// The new thread is being reported.
    Reporting { thread_id: String },
    /// The turn is being started.
    Starting { thread_id: String },
    /// The launch is over.
    Over,
}

/// What happened to a launch since the last step.
#[derive(Debug)]
pub enum LaunchEvent {
    /// The identifier of the new thread, or why there is none.
    ThreadCreated(Result<String, String>),
    Reported(Result<(), TaskExecutionReportError>),
    /// The identifier of the new turn, or why there is none.
    TurnStarted(Result<String, String>),
}

/// What to do next.
#[derive(Debug)]
pub enum LaunchAction {
    Report(TaskExecutionEvent),
    StartTurn { thread_id: String, request: TurnRequest },
    /// Follow the turn.
    Drive(ActiveTurn),
    Finish(TaskExecutionResult),
}

/// A task on its way to a running turn.
#[derive(Debug)]
pub struct Launch {
    pub task: ExecutionTask,
    pub stage: LaunchStage,
}

pub open spec fn is_thread_request(request: ThreadRequest, task: ExecutionTask) -> bool {
    &&& request.model@ == task.model@
    &&& request.workspace@ == task.workspace@
    &&& request.mode@ == task.mode_label@
    &&& request.allow_shell == task.allow_shell
    &&& request.trust_mode == task.trust_mode
    &&& request.auto_approve == task.auto_approve
    &&& !request.archived
    &&& request.task_id@ == task.id@
}

pub open spec fn is_turn_request(request: TurnRequest, task: ExecutionTask) -> bool {
    &&& request.prompt@ == task.prompt@
    &&& request.input_summary@ == summary_of(task.prompt@, TIMELINE_SUMMARY_LIMIT)
    &&& request.model@ == task.model@
    &&& request.mode@ == task.mode_label@
    &&& request.allow_shell == task.allow_shell
    &&& request.trust_mode == task.trust_mode
    &&& request.auto_approve == task.auto_approve
}

/// A launch that ends before the turn begins.
pub open spec fn launch_fails(next: Launch, action: LaunchAction, error: Seq<char>) -> bool {
    &&& next.stage is Over
    &&& action matches LaunchAction::Finish(r) && r.status is Failed && r.result_text is None
        && text_opt(r.error) == Some(error)
}

/// What [`Launch::step`] does.
pub open spec fn launch_step(
    l: Launch,
    event: LaunchEvent,
    next: Launch,
    action: LaunchAction,
) -> bool {
    &&& next.task == l.task
    &&& match event {
        LaunchEvent::ThreadCreated(Err(why)) => launch_fails(
            next,
            action,
            "Failed to create runtime thread: "@ + why@,
        ),
        LaunchEvent::ThreadCreated(Ok(thread)) => {
            &&& next.stage matches LaunchStage::Reporting { thread_id } && thread_id@ == thread@
            &&& action matches LaunchAction::Report(
                TaskExecutionEvent::ThreadCreated { thread_id },
            ) && thread_id@ == thread@
        },
        LaunchEvent::Reported(Err(error)) => {
            &&& next.stage is Over
            &&& action matches LaunchAction::Finish(r) && is_reporting_failure(r, error, Seq::empty())
        },
        LaunchEvent::Reported(Ok(_)) => {
            &&& l.stage matches LaunchStage::Reporting { thread_id: thread }
            &&& next.stage matches LaunchStage::Starting { thread_id } && thread_id@ == thread@
            &&& action matches LaunchAction::StartTurn { thread_id, request } && thread_id@ == thread@
                && is_turn_request(request, l.task)
        },
        LaunchEvent::TurnStarted(Err(why)) => launch_fails(
            next,
            action,
            "Failed to start task: "@ + why@,
        ),
        LaunchEvent::TurnStarted(Ok(turn)) => {
            &&& l.stage matches LaunchStage::Starting { thread_id: thread }
            &&& next.stage is Over
            &&& action matches LaunchAction::Drive(active) && active.task_id@ == l.task.id@
                && active.thread_id@ == thread@ && active.turn_id@ == turn@ && active.stage is New
                && !active.interrupted && active.text@.len() == 0 && active.seen == 0
                && active.ended is None && active.batch@.len() == 0
        },
    }
}

impl Launch {
    /// Starts a launch: the thread is created first.
    pub fn begin(task: ExecutionTask) -> (r: (Launch, ThreadRequest))
        ensures
            r.0.task == task,
            r.0.stage is Creating,
            is_thread_request(r.1, task),
    {
        let request = ThreadRequest {
            model: copy_text(task.model.as_str()),
            workspace: copy_text(task.workspace.as_str()),
            mode: copy_text(task.mode_label.as_str()),
            allow_shell: task.allow_shell,
            trust_mode: task.trust_mode,
            auto_approve: task.auto_approve,
            archived: false,
            task_id: copy_text(task.id.as_str()),
        };
        (Launch { task, stage: LaunchStage::Creating }, request)
    }

    /// Whether the launch waits for an event of this sort.
    pub open spec fn expects(self, event: LaunchEvent) -> bool {
        match event {
            LaunchEvent::ThreadCreated(_) => self.stage is Creating,
            LaunchEvent::Reported(_) => self.stage is Reporting,
            LaunchEvent::TurnStarted(_) => self.stage is Starting,
        }
    }

    fn fail(&mut self, error: String) -> (r: LaunchAction)
        ensures
            final(self).task == old(self).task,
            launch_fails(*final(self), r, error@),
    {
        self.stage = LaunchStage::Over;
        LaunchAction::Finish(
            TaskExecutionResult {
                status: TaskStatus::Failed,
                result_text: None,
                error: Some(error),
            },
        )
    }

    /// Takes what happened and says what to do next.
    pub fn step(&mut self, event: LaunchEvent) -> (r: LaunchAction)
        requires
            old(self).expects(event),
        ensures
            launch_step(*old(self), event, *final(self), r),
    {
        match event {
            LaunchEvent::ThreadCreated(Err(why)) => self.fail(
                join2("Failed to create runtime thread: ", why.as_str()),
            ),
            LaunchEvent::ThreadCreated(Ok(thread)) => {
                let thread_id = copy_text(thread.as_str());
                self.stage = LaunchStage::Reporting { thread_id: thread };
                LaunchAction::Report(TaskExecutionEvent::ThreadCreated { thread_id })
            },
            LaunchEvent::Reported(Err(error)) => {
                self.stage = LaunchStage::Over;
                proof {
                    reveal_strlit("");
                    assert(""@ =~= Seq::empty());
                }
                LaunchAction::Finish(TaskExecutionResult::reporting_failed(&error, ""))
            },
            LaunchEvent::Reported(Ok(_)) => {
                let thread = match &self.stage {
                    LaunchStage::Reporting { thread_id } => copy_text(thread_id.as_str()),
                    _ => String::new(),
                };
                let request = TurnRequest {
                    prompt: copy_text(self.task.prompt.as_str()),
                    input_summary: summarize_text(
                        self.task.prompt.as_str(),
                        TIMELINE_SUMMARY_LIMIT,
                    ),
                    model: copy_text(self.task.model.as_str()),
                    mode: copy_text(self.task.mode_label.as_str()),
                    allow_shell: self.task.allow_shell,
                    trust_mode: self.task.trust_mode,
                    auto_approve: self.task.auto_approve,
                };
                let thread_id = copy_text(thread.as_str());
                self.stage = LaunchStage::Starting { thread_id: thread };
                LaunchAction::StartTurn { thread_id, request }
            },
            LaunchEvent::TurnStarted(Err(why)) => self.fail(
                join2("Failed to start task: ", why.as_str()),
            ),
            LaunchEvent::TurnStarted(Ok(turn)) => {
                let thread = match &self.stage {
                    LaunchStage::Starting { thread_id } => copy_text(thread_id.as_str()),
                    _ => String::new(),
                };
                self.stage = LaunchStage::Over;
                LaunchAction::Drive(
                    ActiveTurn::new(copy_text(self.task.id.as_str()), thread, turn),
                )
            },
        }
    }
}

/// A turn is started only after the thread that it runs on has been reported, and on
/// that thread.
pub proof fn turns_start_on_reported_threads(
    l: Launch,
    event: LaunchEvent,
    next: Launch,
    action: LaunchAction,
)
    requires
        l.expects(event),
        launch_step(l, event, next, action),
    ensures
        action matches LaunchAction::StartTurn { thread_id, .. } ==> (l.stage
            matches LaunchStage::Reporting { thread_id: reported } && reported@ == thread_id@) && (
        event matches LaunchEvent::Reported(Ok(_))),
{
}

} // verus!
