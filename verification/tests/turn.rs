//! Turns of the runtime that a task drives.
use std::collections::VecDeque;

use codewhale::json::{Json, Member};
use codewhale::task::{
    ExecutionTask, TaskExecutionEvent, TaskExecutionReportError, TaskExecutionResult, TaskStatus,
};
use codewhale::turn::{
    interpret, ActiveTurn, Launch, LaunchAction, LaunchEvent, Note, RuntimeEventRecord, TurnAction,
    TurnEvent,
};

type Batch = Result<Vec<RuntimeEventRecord>, String>;

fn text(value: &str) -> Json {
    Json::Text(value.to_string())
}

fn object(members: Vec<(&str, Json)>) -> Json {
    Json::Object(
        members
            .into_iter()
            .map(|(key, value)| Member { key: key.to_string(), value })
            .collect(),
    )
}

fn event(seq: u64, name: &str, payload: Json) -> RuntimeEventRecord {
    RuntimeEventRecord { seq, event: name.to_string(), item_id: None, payload }
}

fn terminal(status: &str) -> RuntimeEventRecord {
    event(1, "turn.completed", object(vec![("turn", object(vec![("status", text(status))]))]))
}

/// What became of a turn.
struct Course {
    result: TaskExecutionResult,
    interrupts: usize,
    reports: Vec<TaskExecutionEvent>,
    reads: Vec<u64>,
}

/// Runs a turn against batches of events and answers to its reports.
fn drive(
    batches: Vec<Batch>,
    answers: Vec<Result<(), TaskExecutionReportError>>,
    cancelled: bool,
) -> Course {
    let mut batches: VecDeque<Batch> = batches.into();
    let mut answers: VecDeque<_> = answers.into();
    let mut cancelled = cancelled;
    let mut interrupts = 0;
    let mut reports = Vec::new();
    let mut reads = Vec::new();
    let mut turn = ActiveTurn::new(
        "task_active".to_string(),
        "thr_active".to_string(),
        "turn_active".to_string(),
    );
    let mut next = TurnEvent::Begun;
    for _ in 0..1_000 {
        next = match turn.step(next, cancelled) {
            TurnAction::Report(event) => {
                reports.push(event);
                let answer = answers.pop_front().unwrap_or(Ok(()));
                // A report that fails cancels the execution.
                cancelled = cancelled || answer.is_err();
                TurnEvent::Reported(answer)
            }
            TurnAction::Interrupt => {
                interrupts += 1;
                TurnEvent::Interrupted
            }
            TurnAction::Read { since } => {
                reads.push(since);
                TurnEvent::Read(batches.pop_front().unwrap_or_else(|| Ok(Vec::new())))
            }
            TurnAction::Sleep => TurnEvent::Slept,
            TurnAction::Finish(result) => return Course { result, interrupts, reports, reads },
        };
    }
    panic!("the turn does not end");
}

#[test]
fn thread_link_rejection_interrupts_once() {
    let rejected = TaskExecutionReportError::Rejected("persist link failed".to_string());
    let course = drive(Vec::new(), vec![Err(rejected)], false);
    assert!(matches!(course.reports[0], TaskExecutionEvent::ThreadLinked { .. }));
    assert_eq!(course.result.status, TaskStatus::Failed);
    assert_eq!(course.interrupts, 1);
}

#[test]
fn closed_report_channel_interrupts_once() {
    let course = drive(Vec::new(), vec![Err(TaskExecutionReportError::Closed)], false);
    assert_eq!(course.result.status, TaskStatus::Failed);
    assert_eq!(course.interrupts, 1);
}

#[test]
fn runtime_event_read_failure_interrupts_once() {
    let course = drive(vec![Err("corrupt event json".to_string())], Vec::new(), false);
    assert_eq!(course.result.status, TaskStatus::Failed);
    assert!(course.result.error.expect("error").contains("Failed to read runtime events"));
    assert_eq!(course.interrupts, 1);
}

#[test]
fn successful_terminal_turn_is_not_interrupted() {
    let course = drive(vec![Ok(vec![terminal("completed")])], Vec::new(), false);
    assert_eq!(course.result.status, TaskStatus::Completed);
    assert_eq!(course.interrupts, 0);
}

#[test]
fn user_cancellation_interrupts_active_turn_once() {
    let course = drive(vec![Ok(vec![terminal("canceled")])], Vec::new(), true);
    assert_eq!(course.result.status, TaskStatus::Canceled);
    assert_eq!(course.interrupts, 1);
}

#[test]
fn events_are_read_from_the_last_one_on() {
    let first = event(4, "something.else", Json::Null);
    let second = event(9, "something.more", Json::Null);
    let mut last = terminal("completed");
    last.seq = 10;
    let course = drive(vec![Ok(vec![first, second]), Ok(vec![last])], Vec::new(), false);
    assert_eq!(course.reads.len(), 2);
    assert_eq!(course.reads[1], 9);
    assert_eq!(course.result.status, TaskStatus::Completed);
}

#[test]
fn messages_make_up_the_result() {
    let delta = |seq: u64, words: &str| {
        event(
            seq,
            "item.delta",
            object(vec![("kind", text("agent_message")), ("delta", text(words))]),
        )
    };
    assert!(matches!(interpret(delta(1, "x")), Note::Message(words) if words == "x"));
    let mut end = terminal("completed");
    end.seq = 3;
    let course = drive(vec![Ok(vec![delta(1, "Hello, "), delta(2, "world"), end])], Vec::new(), false);
    assert_eq!(course.result.result_text.as_deref(), Some("Hello, world"));
}

#[test]
fn failed_turns_fail() {
    let turn = object(vec![("status", text("failed")), ("error", text("no tokens"))]);
    let end = event(1, "turn.completed", object(vec![("turn", turn)]));
    let course = drive(vec![Ok(vec![end])], Vec::new(), false);
    assert_eq!(course.result.status, TaskStatus::Failed);
    assert_eq!(course.result.error.as_deref(), Some("no tokens"));
    assert_eq!(course.interrupts, 0);
}

fn task() -> ExecutionTask {
    ExecutionTask {
        id: "task_1".to_string(),
        prompt: "do it".to_string(),
        model: "m".to_string(),
        workspace: ".".to_string(),
        mode_label: "agent".to_string(),
        allow_shell: false,
        trust_mode: false,
        auto_approve: true,
    }
}

#[test]
fn threads_are_reported_before_turns_start() {
    let (mut launch, request) = Launch::begin(task());
    assert_eq!(request.task_id, "task_1");
    assert!(request.auto_approve);
    match launch.step(LaunchEvent::ThreadCreated(Ok("thr".to_string()))) {
        LaunchAction::Report(TaskExecutionEvent::ThreadCreated { thread_id }) => {
            assert_eq!(thread_id, "thr");
        }
        other => panic!("unexpected action {other:?}"),
    }
    match launch.step(LaunchEvent::Reported(Ok(()))) {
        LaunchAction::StartTurn { thread_id, request } => {
            assert_eq!(thread_id, "thr");
            assert_eq!(request.prompt, "do it");
        }
        other => panic!("unexpected action {other:?}"),
    }
    match launch.step(LaunchEvent::TurnStarted(Ok("turn".to_string()))) {
        LaunchAction::Drive(turn) => {
            assert_eq!((turn.thread_id.as_str(), turn.turn_id.as_str()), ("thr", "turn"));
        }
        other => panic!("unexpected action {other:?}"),
    }
}

#[test]
fn launches_fail_with_their_reason() {
    let failed = |action: LaunchAction| match action {
        LaunchAction::Finish(result) => {
            assert_eq!(result.status, TaskStatus::Failed);
            result.error.expect("error")
        }
        other => panic!("unexpected action {other:?}"),
    };
    let (mut launch, _) = Launch::begin(task());
    let words = failed(launch.step(LaunchEvent::ThreadCreated(Err("full".to_string()))));
    assert!(words.contains("full"));

    let (mut launch, _) = Launch::begin(task());
    launch.step(LaunchEvent::ThreadCreated(Ok("thr".to_string())));
    let dropped = Err(TaskExecutionReportError::AcknowledgementDropped);
    failed(launch.step(LaunchEvent::Reported(dropped)));

    let (mut launch, _) = Launch::begin(task());
    launch.step(LaunchEvent::ThreadCreated(Ok("thr".to_string())));
    launch.step(LaunchEvent::Reported(Ok(())));
    let words = failed(launch.step(LaunchEvent::TurnStarted(Err("busy".to_string()))));
    assert!(words.contains("busy"));
}
