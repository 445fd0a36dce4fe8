//! A manager whose files are kept in memory: what is stored, and what is known.
use std::collections::BTreeMap;

use codewhale::failure::Failure;
use codewhale::task::{
    report_outcome, ExecutionTask, NewTaskRequest, TaskExecutionEvent, TaskExecutionReportError,
    TaskExecutionResult, TaskGateRecord, TaskManagerConfig, TaskRecord, TaskStatus,
    TaskTimelineEntry, ARTIFACT_THRESHOLD,
};
use codewhale::task_events::{apply_execution_event, cancel_record, start_record, CancelEffect};
use codewhale::task_loading::TaskLoading;
use codewhale::task_pruning::{PruneAction, PruneEvent, TaskPruning};
use codewhale::task_recovery::validate_prune_marker;
use codewhale::task_runs::{
    FinishAction, FinishEvent, Finishing, Worker, WorkerAction, WorkerEvent,
};
use codewhale::task_store::{AddPlan, Change, ManagerState};
use codewhale::task_updates::{apply_task_updates, Parsed, TaskUpdates};
use codewhale::time::Timestamp;

fn now() -> Timestamp {
    Timestamp { secs: 1_783_587_600, nanos: 0 }
}

fn later(secs: i64) -> Timestamp {
    Timestamp { secs: now().secs + secs, nanos: 0 }
}

fn config() -> TaskManagerConfig {
    TaskManagerConfig {
        data_dir: "tasks".to_string(),
        worker_count: 1,
        default_workspace: ".".to_string(),
        default_model: "deepseek-v4-flash".to_string(),
        default_mode: "agent".to_string(),
        allow_shell: false,
        trust_mode: false,
        max_subagents: 2,
    }
}

fn prompt(text: &str) -> NewTaskRequest {
    NewTaskRequest::from_prompt(text.to_string())
}

fn completed(text: &str) -> TaskExecutionResult {
    TaskExecutionResult {
        status: TaskStatus::Completed,
        result_text: Some(text.to_string()),
        error: None,
    }
}

/// The files of a manager.
#[derive(Default)]
struct Disk {
    tasks: BTreeMap<String, TaskRecord>,
    queue: Vec<String>,
    artifacts: BTreeMap<String, Vec<String>>,
    markers: Vec<String>,
    /// The tasks that were stored, with the status that was to be stored.
    writes: Vec<(String, TaskStatus)>,
    artifact_attempts: usize,
    fail_next_write: bool,
    fail_next_queue_write: bool,
    blocked_status: Option<TaskStatus>,
    artifacts_blocked: bool,
}

impl Disk {
    fn store(&mut self, task: &TaskRecord) -> Result<(), String> {
        self.writes.push((task.id.clone(), task.status));
        if std::mem::take(&mut self.fail_next_write) || self.blocked_status == Some(task.status) {
            return Err("injected task persistence failure".to_string());
        }
        self.tasks.insert(task.id.clone(), task.clone());
        Ok(())
    }

    fn store_queue(&mut self, queue: &[String]) {
        if !std::mem::take(&mut self.fail_next_queue_write) {
            self.queue = queue.to_vec();
        }
    }

    fn write_artifact(&mut self, id: &str, text: &str) -> Result<String, String> {
        self.artifact_attempts += 1;
        if self.artifacts_blocked {
            return Err("injected artifact persistence failure".to_string());
        }
        let files = self.artifacts.entry(id.to_string()).or_default();
        files.push(text.to_string());
        Ok(format!("artifacts/{id}/{}_result.txt", files.len()))
    }

    fn writes_of(&self, id: &str, status: TaskStatus) -> usize {
        self.writes.iter().filter(|write| write.0 == id && write.1 == status).count()
    }
}

struct Manager {
    disk: Disk,
    state: ManagerState,
    calls: usize,
}

impl Manager {
    fn open(mut disk: Disk) -> Result<Manager, Failure> {
        for id in std::mem::take(&mut disk.markers) {
            validate_prune_marker(&id, &id, "marker.json")?;
            disk.artifacts.remove(&id);
            disk.tasks.remove(&id);
        }
        let mut loading = TaskLoading::new();
        for (stem, task) in disk.tasks.clone() {
            if loading.read(task, &stem, &format!("tasks/{stem}.json"), now())? {
                let held = loading.held.as_ref().expect("held").task.clone();
                disk.store(&held).expect("stored");
                loading.stored()?;
            }
        }
        let state = loading.finish(disk.queue.clone())?;
        Ok(Manager { disk, state, calls: 0 })
    }

    fn new() -> Manager {
        Manager::open(Disk::default()).expect("empty")
    }

    fn add(&mut self, req: NewTaskRequest, key: Option<&str>) -> Result<TaskRecord, Failure> {
        let key = key.map(ToString::to_string);
        match self.state.plan_task(req, &config(), ".", key, now())? {
            AddPlan::Existing(id) => Ok(self.get(&id)),
            AddPlan::New(task) => {
                let stored = self.disk.store(&task);
                self.state.settle(Change::New(task.clone()), stored)?;
                self.disk.store_queue(&self.state.queue);
                Ok(task)
            }
        }
    }

    fn get(&self, id: &str) -> TaskRecord {
        self.state.get_task(id).expect("known").clone()
    }

    fn cancel(&mut self, id: &str) -> Result<CancelEffect, Failure> {
        let (task, effect) = cancel_record(self.get(id), later(1));
        if effect != CancelEffect::Nothing {
            let stored = self.disk.store(&task);
            self.state.settle(Change::Cancel { task, effect }, stored)?;
        }
        Ok(effect)
    }

    fn replace(&mut self, task: TaskRecord) -> Result<(), Failure> {
        let stored = self.disk.store(&task);
        self.state.settle(Change::Replace(task), stored)
    }

    fn event(&mut self, id: &str, event: TaskExecutionEvent) -> Result<(), Failure> {
        let task = apply_execution_event(self.get(id), event, later(1), None, TaskUpdates::none())?;
        self.replace(task)
    }

    /// One turn of a worker. Gives the task that is to be executed.
    fn turn(&mut self) -> Option<ExecutionTask> {
        let mut worker = Worker::new();
        let mut event = WorkerEvent::Turn { shutdown: false };
        let mut waiting = None;
        loop {
            event = match worker.step(event) {
                WorkerAction::Look => {
                    waiting = self.state.next_waiting().0;
                    WorkerEvent::Looked { found: waiting.is_some() }
                }
                WorkerAction::StoreStart => {
                    let started = start_record(self.get(waiting.as_deref().expect("found")), now());
                    let stored = self.disk.store(&started);
                    let settled = self.state.settle(Change::Start(started), stored);
                    WorkerEvent::StartStored { stored: settled.is_ok() }
                }
                WorkerAction::Execute => {
                    self.calls += 1;
                    return Some(ExecutionTask::for_record(&self.get(waiting.as_deref().expect("id"))));
                }
                WorkerAction::BackOff | WorkerAction::Wait => return None,
                action => panic!("unexpected action {action:?}"),
            };
        }
    }

    /// Goes on with the end of a task until something has to be waited for.
    fn finish(&mut self, course: &mut Finishing, first: FinishEvent) -> FinishAction {
        let mut event = first;
        loop {
            event = match course.step(event) {
                FinishAction::WriteArtifact => {
                    let text = course.result.result_text.clone().unwrap_or_default();
                    FinishEvent::ArtifactWritten(self.disk.write_artifact(&course.task_id, &text))
                }
                FinishAction::Save => {
                    let ended = course.record(self.get(&course.task_id));
                    let stored = self.disk.store(&ended);
                    let settled = self.state.settle(Change::Finish(ended), stored);
                    FinishEvent::Saved(settled.map_err(|failure| failure.message))
                }
                action => return action,
            };
        }
    }

    fn prune(&mut self, protected: &[String]) -> Result<Vec<String>, Failure> {
        let mut course = TaskPruning::new(self.state.prune_candidates(&protected.to_vec()));
        let mut action = course.step(PruneEvent::Begun);
        loop {
            let event = match action {
                PruneAction::Mark { task_id } => {
                    self.disk.markers.push(task_id);
                    PruneEvent::Marked(Ok(()))
                }
                PruneAction::RemoveArtifacts { task_id } => {
                    assert!(self.disk.markers.contains(&task_id), "marked first");
                    self.disk.artifacts.remove(&task_id);
                    PruneEvent::ArtifactsRemoved(Ok(()))
                }
                PruneAction::RemoveRecord { task_id } => {
                    self.disk.tasks.remove(&task_id);
                    PruneEvent::RecordRemoved(Ok(()))
                }
                PruneAction::Forget { task_id } => {
                    self.state.forget(&task_id);
                    self.disk.markers.retain(|marker| marker != &task_id);
                    PruneEvent::Unmarked
                }
                PruneAction::Finish => return Ok(course.pruned),
                PruneAction::Fail(failure) => return Err(failure),
            };
            action = course.step(event);
        }
    }
}

fn finishing(task: &ExecutionTask, result: TaskExecutionResult) -> Finishing {
    Finishing::new(task.id().to_string(), result, false, task.mode_label().to_string(), later(2))
}

fn gate(id: &str) -> TaskGateRecord {
    TaskGateRecord {
        id: id.to_string(),
        gate: "test".to_string(),
        command: "cargo test".to_string(),
        cwd: ".".to_string(),
        exit_code: Some(0),
        status: "passed".to_string(),
        classification: "passed".to_string(),
        duration_ms: 1,
        summary: "must roll back".to_string(),
        log_path: None,
        recorded_at: now(),
    }
}

// Adding ---------------------------------------------------------------------
#[test]
fn failed_enqueue_persistence_leaves_no_in_memory_task() {
    let key = Some("automation:retry-after-write-failure");
    let mut manager = Manager::new();
    manager.disk.fail_next_write = true;
    assert!(manager.add(prompt("retry me"), key).is_err(), "the write must fail the add");
    assert!(manager.state.list_tasks(None).is_empty());
    assert!(manager.state.queue.is_empty());
    assert!(manager.state.idempotency_index.is_empty());

    let retried = manager.add(prompt("retry me"), key).expect("added");
    assert!(manager.disk.tasks.contains_key(&retried.id));
    let mut reopened = Manager::open(manager.disk).expect("reopened");
    assert_eq!(reopened.add(prompt("ignored"), key).expect("known").id, retried.id);
    assert_eq!(reopened.state.list_tasks(None).len(), 1);
}

#[test]
fn queue_cache_failure_returns_durable_task_and_reopens_once() {
    let key = Some("automation:queue-cache-failure");
    let mut manager = Manager::new();
    manager.disk.fail_next_queue_write = true;
    let task = manager.add(prompt("durable work"), key).expect("the queue is only a cache");
    assert!(manager.disk.tasks.contains_key(&task.id));
    assert!(!manager.disk.fail_next_queue_write, "the injected failure must be consumed");
    assert!(manager.disk.queue.is_empty());

    let mut reopened = Manager::open(manager.disk).expect("reopened");
    assert_eq!(reopened.state.queue, vec![task.id.clone()]);
    assert_eq!(reopened.add(prompt("ignored retry"), key).expect("known").id, task.id);
    assert_eq!(reopened.state.list_tasks(None).len(), 1);
}

#[test]
fn ten_adds_write_exactly_ten_task_records() {
    let mut manager = Manager::new();
    for index in 0..10 {
        manager.add(prompt(&format!("task {index}")), None).expect("added");
    }
    assert_eq!(manager.disk.writes.len(), 10, "each add must store only its new record");
    assert_eq!(manager.state.list_tasks(None).len(), 10);
    assert_eq!(manager.state.list_tasks(Some(3)).len(), 3);
    assert_eq!(manager.state.counts().queued, 10);
}

// Running --------------------------------------------------------------------
#[test]
fn executor_never_starts_before_running_record_is_durable() {
    let mut manager = Manager::new();
    manager.disk.blocked_status = Some(TaskStatus::Running);
    let task = manager.add(prompt("wait for durable Running"), None).expect("added");
    assert!(manager.turn().is_none());
    assert_eq!(manager.disk.writes_of(&task.id, TaskStatus::Running), 1);
    assert_eq!(manager.calls, 0, "executor must not start after a rejected Running write");
    assert_eq!(manager.get(&task.id).status, TaskStatus::Queued);
    assert_eq!(manager.disk.tasks[&task.id].status, TaskStatus::Queued);
    assert_eq!(manager.state.queue, vec![task.id.clone()]);

    manager.disk.blocked_status = None;
    let execution = manager.turn().expect("started");
    assert_eq!(manager.state.running, vec![task.id.clone()]);
    assert!(manager.state.queue.is_empty());
    let mut course = finishing(&execution, completed("done"));
    assert!(matches!(manager.finish(&mut course, FinishEvent::Begun), FinishAction::Finish));
    assert_eq!(manager.get(&task.id).status, TaskStatus::Completed);
    assert_eq!(manager.calls, 1);
    assert_eq!(manager.disk.writes_of(&task.id, TaskStatus::Running), 2);
}

#[test]
fn rejected_execution_event_does_not_mutate_memory_or_later_leak_to_disk() {
    let mut manager = Manager::new();
    let task = manager.add(prompt("reject one event"), None).expect("added");
    let rejected = "event must remain rejected";
    manager.disk.fail_next_write = true;
    let outcome = manager.event(&task.id, TaskExecutionEvent::Status { message: rejected.to_string() });
    let holds = |task: &TaskRecord| task.timeline.iter().any(|entry| entry.summary == rejected);
    let leaked_to_memory = holds(&manager.get(&task.id));

    let mut course = finishing(&ExecutionTask::for_record(&task), completed("done"));
    assert!(matches!(manager.finish(&mut course, FinishEvent::Begun), FinishAction::Finish));
    assert!(outcome.is_err(), "the event gate must reject the write");
    assert!(!leaked_to_memory, "a rejected event mutated memory");
    assert!(!holds(&manager.disk.tasks[&task.id]), "a rejected event leaked during finish");
}

#[test]
fn thread_created_ack_is_durable_and_survives_reopen() {
    let mut manager = Manager::new();
    let task = manager.add(prompt("persist thread before continuing"), None).expect("added");
    let execution = manager.turn().expect("started");
    manager
        .event(&task.id, TaskExecutionEvent::ThreadCreated { thread_id: "thr_durable_ack".to_string() })
        .expect("stored");
    assert_eq!(manager.disk.tasks[&task.id].thread_id.as_deref(), Some("thr_durable_ack"));
    let mut course = finishing(&execution, completed("done"));
    assert!(matches!(manager.finish(&mut course, FinishEvent::Begun), FinishAction::Finish));
    let reopened = Manager::open(manager.disk).expect("reopened");
    assert_eq!(reopened.get(&task.id).thread_id.as_deref(), Some("thr_durable_ack"));
}

#[test]
fn terminal_state_is_not_visible_until_terminal_write_succeeds() {
    let mut manager = Manager::new();
    let task = manager.add(prompt("hold terminal persistence"), None).expect("added");
    let execution = manager.turn().expect("started");
    manager.disk.blocked_status = Some(TaskStatus::Completed);
    let mut course = finishing(&execution, completed(&"x".repeat(ARTIFACT_THRESHOLD + 100)));
    assert!(matches!(manager.finish(&mut course, FinishEvent::Begun), FinishAction::BackOff));
    assert_eq!(manager.disk.writes_of(&task.id, TaskStatus::Completed), 1);
    assert_eq!(manager.get(&task.id).status, TaskStatus::Running);
    assert_eq!(manager.disk.tasks[&task.id].status, TaskStatus::Running);
    assert_eq!(manager.disk.artifacts[&task.id].len(), 1, "the artifact must be prepared once");

    manager.disk.blocked_status = None;
    let again = FinishEvent::Waited { shutdown: false };
    assert!(matches!(manager.finish(&mut course, again), FinishAction::Finish));
    assert_eq!(manager.get(&task.id).status, TaskStatus::Completed);
    assert_eq!(manager.calls, 1);
    assert_eq!(manager.disk.writes_of(&task.id, TaskStatus::Completed), 2);
    assert_eq!(manager.disk.artifacts[&task.id].len(), 1, "retries must reuse the artifact");
    assert!(manager.get(&task.id).result_detail_path.is_some());
}

#[test]
fn terminal_artifact_write_failure_retries_without_publishing_terminal_state() {
    let mut manager = Manager::new();
    let task = manager.add(prompt("retry artifact persistence"), None).expect("added");
    let execution = manager.turn().expect("started");
    manager.disk.artifacts_blocked = true;
    let mut course = finishing(&execution, completed(&"x".repeat(ARTIFACT_THRESHOLD + 100)));
    assert!(matches!(manager.finish(&mut course, FinishEvent::Begun), FinishAction::BackOff));
    assert_eq!(manager.get(&task.id).status, TaskStatus::Running);
    assert_eq!(manager.disk.tasks[&task.id].status, TaskStatus::Running);
    assert!(manager.state.running.contains(&task.id), "it runs until its end is durable");
    assert_eq!(manager.disk.artifact_attempts, 1, "the retry waits");

    manager.disk.artifacts_blocked = false;
    let again = FinishEvent::Waited { shutdown: false };
    assert!(matches!(manager.finish(&mut course, again), FinishAction::Finish));
    assert_eq!(manager.get(&task.id).status, TaskStatus::Completed);
    assert!(!manager.state.running.contains(&task.id));
    assert_eq!(manager.disk.artifact_attempts, 2);
    assert_eq!(manager.disk.artifacts[&task.id].len(), 1);

    let mut closing = Manager::new();
    let task = closing.add(prompt("cancel artifact retries"), None).expect("added");
    let execution = closing.turn().expect("started");
    closing.disk.artifacts_blocked = true;
    let mut course = finishing(&execution, completed(&"y".repeat(ARTIFACT_THRESHOLD + 100)));
    assert!(matches!(closing.finish(&mut course, FinishEvent::Begun), FinishAction::BackOff));
    let shutdown = FinishEvent::Waited { shutdown: true };
    let words = match closing.finish(&mut course, shutdown) {
        FinishAction::Fail(failure) => failure.message,
        other => panic!("unexpected action {other:?}"),
    };
    assert_eq!(
        words,
        format!(
            "Task manager shut down before terminal artifact for {} was durable: injected artifact \
             persistence failure",
            task.id
        )
    );
    assert_eq!(closing.disk.artifact_attempts, 1, "no retries after shutdown");
    assert_eq!(closing.get(&task.id).status, TaskStatus::Running);
    assert_eq!(closing.disk.tasks[&task.id].status, TaskStatus::Running);
    assert!(closing.state.running.contains(&task.id));
}

#[test]
fn workers_stop_when_the_manager_shuts_down() {
    let mut worker = Worker::new();
    assert!(matches!(worker.step(WorkerEvent::Turn { shutdown: true }), WorkerAction::Exit));
    let mut worker = Worker::new();
    assert!(matches!(worker.step(WorkerEvent::Turn { shutdown: false }), WorkerAction::Look));
    assert!(matches!(worker.step(WorkerEvent::Looked { found: false }), WorkerAction::Wait));
    assert!(matches!(worker.step(WorkerEvent::Woken { shutdown: true }), WorkerAction::Exit));
    let mut worker = Worker::new();
    let _ = worker.step(WorkerEvent::Turn { shutdown: false });
    let _ = worker.step(WorkerEvent::Looked { found: true });
    assert!(matches!(
        worker.step(WorkerEvent::StartStored { stored: false }),
        WorkerAction::BackOff
    ));
    assert!(matches!(worker.step(WorkerEvent::Woken { shutdown: false }), WorkerAction::Again));
}

#[test]
fn reporter_failure_cancels_token() {
    let report = |reached: bool, answer: Option<Result<(), String>>| {
        let outcome = report_outcome(reached, answer);
        (outcome.result, outcome.cancels)
    };
    assert_eq!(report(false, None), (Err(TaskExecutionReportError::Closed), true));
    assert_eq!(
        report(true, Some(Err("disk full".to_string()))),
        (Err(TaskExecutionReportError::Rejected("disk full".to_string())), true)
    );
    assert_eq!(
        report(true, None),
        (Err(TaskExecutionReportError::AcknowledgementDropped), true)
    );
    assert_eq!(report(true, Some(Ok(()))), (Ok(()), false));
}

// Changing -------------------------------------------------------------------
#[test]
fn cancel_persistence_failure_rolls_back_memory_and_queue() {
    let mut manager = Manager::new();
    let task = manager.add(prompt("cancel durably"), None).expect("added");
    manager.disk.fail_next_write = true;
    assert!(manager.cancel(&task.id).is_err(), "the injected cancel write must fail");
    assert_eq!(manager.get(&task.id).status, TaskStatus::Queued);
    assert_eq!(manager.disk.tasks[&task.id].status, TaskStatus::Queued);
    assert!(manager.state.queue.contains(&task.id), "failed cancel removed the queued task");

    assert_eq!(manager.cancel(&task.id).expect("stored"), CancelEffect::LeaveQueue);
    assert!(manager.state.queue.is_empty());
    assert_eq!(manager.cancel(&task.id).expect("over"), CancelEffect::Nothing);
}

#[test]
fn metadata_persistence_failure_rolls_back_memory() {
    let mut manager = Manager::new();
    let task = manager.add(prompt("metadata durably"), None).expect("added");
    manager.disk.fail_next_write = true;
    let mut updates = TaskUpdates::none();
    updates.gate = Parsed::Value(gate("gate_rejected"));
    let updated = apply_task_updates(manager.get(&task.id), updates, later(1)).expect("applied");
    assert_eq!(updated.gates.len(), 1);
    assert!(manager.replace(updated).is_err(), "the injected metadata write must fail");
    assert!(manager.get(&task.id).gates.is_empty(), "failed metadata mutated memory");
    assert!(manager.disk.tasks[&task.id].gates.is_empty(), "failed metadata mutated disk");
}

#[test]
fn unrelated_tasks_are_not_rewritten_by_start_or_finish() {
    let mut seed = Manager::new();
    let unrelated = seed.add(prompt("leave startup bytes alone"), None).expect("added");
    let recovered = seed.add(prompt("recover only this one"), None).expect("added");
    let mut disk = seed.disk;
    let ended = disk.tasks.get_mut(&unrelated.id).expect("stored");
    ended.status = TaskStatus::Completed;
    ended.ended_at = Some(now());
    ended.duration_ms = Some(0);
    let running = disk.tasks.get_mut(&recovered.id).expect("stored");
    running.status = TaskStatus::Running;
    running.started_at = Some(now());
    running.timeline.push(TaskTimelineEntry {
        timestamp: now(),
        kind: "running".to_string(),
        summary: "Task started".to_string(),
        detail_path: None,
    });
    disk.writes.clear();
    let reopened = Manager::open(disk).expect("reopened");
    assert_eq!(reopened.disk.writes, vec![(recovered.id.clone(), TaskStatus::Failed)]);
    assert_eq!(reopened.disk.tasks[&recovered.id].status, TaskStatus::Failed);

    let mut manager = Manager::new();
    let target = manager.add(prompt("finish only this one"), None).expect("added");
    let other = manager.add(prompt("do not rewrite that one"), None).expect("added");
    let execution = manager.turn().expect("started");
    assert_eq!(execution.id(), target.id);
    manager.disk.writes.clear();
    let mut course = finishing(&execution, completed("done"));
    assert!(matches!(manager.finish(&mut course, FinishEvent::Begun), FinishAction::Finish));
    assert_eq!(manager.disk.writes, vec![(target.id, TaskStatus::Completed)]);
    assert_eq!(manager.get(&other.id).status, TaskStatus::Queued);
}

// Reading back ---------------------------------------------------------------
#[test]
fn nothing_runs_once_the_tasks_are_read_back() {
    let mut manager = Manager::new();
    let first = manager.add(prompt("running"), Some("key")).expect("added");
    let second = manager.add(prompt("waiting"), None).expect("added");
    manager.turn().expect("started");
    let reopened = Manager::open(manager.disk).expect("reopened");
    assert_eq!(reopened.get(&first.id).status, TaskStatus::Failed);
    assert_eq!(reopened.state.queue, vec![second.id]);
    assert!(reopened.state.running.is_empty());
    assert_eq!(reopened.state.counts().running, 0);
    assert_eq!(reopened.state.idempotency_index.len(), 1);
}

#[test]
fn reading_back_twice_stores_nothing() {
    let mut manager = Manager::new();
    let running = start_record(manager.add(prompt("running"), Some("a")).expect("added"), now());
    let mut strange = manager.add(prompt("strange"), Some("b")).expect("added");
    strange.mode = "observer".to_string();
    let mut shouted = manager.add(prompt("shouted"), None).expect("added");
    shouted.mode = " PLAN ".to_string();
    let healthy = manager.add(prompt("healthy"), None).expect("added");

    let mut first = TaskLoading::new();
    for task in [running, strange, shouted, healthy.clone()] {
        let stem = task.id.clone();
        let changed = stem != healthy.id;
        assert_eq!(first.read(task, &stem, "tasks/it.json", now()).expect("read"), changed);
        if changed {
            first.stored().expect("stored");
        }
    }
    let modes: Vec<&str> = first.tasks.iter().map(|task| task.mode.as_str()).collect();
    assert_eq!(modes, ["agent", "agent", "plan", "agent"]);
    assert_eq!(first.tasks[1].status, TaskStatus::Failed);
    assert_eq!(first.tasks[1].idempotency_key.as_deref(), Some("b"));

    let mut second = TaskLoading::new();
    for task in first.tasks.iter().rev() {
        let read = second.read(task.clone(), &task.id, "tasks/it.json", later(60));
        assert!(!read.expect("read"), "nothing is stored again");
    }
    second.tasks.reverse();
    assert_eq!(format!("{:?}", second.tasks), format!("{:?}", first.tasks));
    let once = first.finish(Vec::new()).expect("finished");
    let twice = second.finish(once.queue.clone()).expect("finished");
    assert_eq!(twice.queue.len(), 2);
    assert_eq!(once.queue, twice.queue);
    assert!(twice.queue.contains(&healthy.id));
}

#[test]
fn records_that_cannot_be_trusted_stop_the_reading() {
    let task = Manager::new().add(prompt("seed"), None).expect("added");
    let mut loading = TaskLoading::new();
    assert!(!loading.read(task.clone(), &task.id, "tasks/a.json", now()).expect("unchanged"));
    assert_eq!(
        loading.read(task.clone(), &task.id, "tasks/b.json", now()).expect_err("twice").message,
        format!("Duplicate persisted task id '{}' while loading tasks/b.json", task.id)
    );
    assert!(loading
        .read(task, "another", "tasks/c.json", now())
        .expect_err("another name")
        .message
        .contains("does not match persisted task id"));
    assert_eq!(loading.tasks.len(), 1);
}

// Pruning --------------------------------------------------------------------
#[test]
fn prune_terminal_tasks_preserves_protected_and_active_tasks() {
    let mut manager = Manager::new();
    let prunable = manager.add(prompt("prunable terminal"), Some("prunable-key")).expect("added");
    manager.disk.write_artifact(&prunable.id, "old artifact").expect("written");
    manager.cancel(&prunable.id).expect("canceled");
    let protected = manager.add(prompt("protected terminal"), None).expect("added");
    manager.disk.write_artifact(&protected.id, "keep artifact").expect("written");
    manager.cancel(&protected.id).expect("canceled");
    let queued = manager.add(prompt("queued task"), None).expect("added");

    let pruned = manager.prune(&[protected.id.clone()]).expect("pruned");

    assert_eq!(pruned, vec![prunable.id.clone()]);
    assert_eq!(manager.state.task_count(), 2);
    assert!(manager.state.get_task(&prunable.id).is_err());
    assert!(manager.state.get_task(&protected.id).is_ok());
    assert!(manager.state.get_task(&queued.id).is_ok());
    assert!(!manager.disk.tasks.contains_key(&prunable.id));
    assert!(!manager.disk.artifacts.contains_key(&prunable.id));
    assert!(manager.disk.artifacts.contains_key(&protected.id));
    assert!(manager.disk.markers.is_empty());
    assert!(manager.state.idempotency_index.is_empty());
    let replacement = manager.add(prompt("replacement"), Some("prunable-key")).expect("added");
    assert_ne!(replacement.id, prunable.id);
}

#[test]
fn startup_finishes_journaled_task_prune() {
    let mut manager = Manager::new();
    let task = manager.add(prompt("crash during prune"), None).expect("added");
    manager.disk.write_artifact(&task.id, "artifact").expect("written");
    manager.cancel(&task.id).expect("canceled");
    manager.disk.markers.push(task.id.clone());

    let reopened = Manager::open(manager.disk).expect("reopened");
    assert!(reopened.state.get_task(&task.id).is_err());
    assert!(!reopened.disk.tasks.contains_key(&task.id));
    assert!(!reopened.disk.artifacts.contains_key(&task.id));
    assert!(reopened.disk.markers.is_empty());
}

#[test]
fn prune_markers_name_their_task() {
    assert!(validate_prune_marker("task_a", "task_a", "m.json").is_ok());
    assert_eq!(
        validate_prune_marker("../a", "a", "m.json").expect_err("unsafe").message,
        "Invalid task prune marker m.json"
    );
    assert_eq!(
        validate_prune_marker("a", "b", "m.json").expect_err("another").message,
        "Task prune marker stem 'b' does not match task id 'a' in m.json"
    );
}

#[test]
fn what_fails_breaks_a_deletion_off() {
    let ids = vec!["task_a".to_string(), "task_b".to_string()];
    let mut course = TaskPruning::new(ids);
    assert!(matches!(
        course.step(PruneEvent::Begun),
        PruneAction::Mark { task_id } if task_id == "task_a"
    ));
    let _ = course.step(PruneEvent::Marked(Ok(())));
    assert!(matches!(
        course.step(PruneEvent::ArtifactsRemoved(Err("busy".to_string()))),
        PruneAction::Fail(failure) if failure.message == "busy"
    ));
    assert!(course.pruned.is_empty());
    assert_eq!(course.left.len(), 2);

    let mut course = TaskPruning::new(vec!["..".to_string()]);
    assert!(matches!(
        course.step(PruneEvent::Begun),
        PruneAction::Fail(failure) if failure.message == "task id must be a single path component"
    ));
    let mut course = TaskPruning::new(Vec::new());
    assert!(matches!(course.step(PruneEvent::Begun), PruneAction::Finish));
}
