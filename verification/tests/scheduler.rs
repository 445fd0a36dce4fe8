//! Ticks of the scheduler, runs by hand and what is left behind by a crash, on a store
//! that lives in memory.
use std::collections::{BTreeMap, BTreeSet};

use chrono::{DateTime, Utc};
use codewhale::automation::{
    validate_automation_record, AutomationRecord, AutomationRunRecord, AutomationRunStatus, AutomationStatus,
    CURRENT_AUTOMATION_SCHEMA_VERSION, CURRENT_RUN_SCHEMA_VERSION,
};
use codewhale::automation_listing::{admit_stored, list_automations, StoredAutomation};
use codewhale::enqueue::{record_enqueue, task_request_for, QueuedTask};
use codewhale::manual_run::{ManualAction, ManualEvent, ManualRun, ManualStage};
use codewhale::pending::{
    sort_pending, validate_pending_enqueue_record, PendingEnqueueKind, PendingEnqueueRecord,
    CURRENT_PENDING_ENQUEUE_SCHEMA_VERSION,
};
use codewhale::reconcile::{
    reconcile_runs, settle_last_run, task_to_look_up, ObservedRun, TaskProgress,
};
use codewhale::resumption::{RecoveryRound, ResumeAction, ResumeEvent, Resumption};
use codewhale::scheduler::{
    AutomationSchedulerConfig, SlotLookup, SlotTick, TickAction, TickEvent, TickStage,
};
use codewhale::task::{NewTaskRequest, TaskExecutionResult, TaskManagerConfig, TaskStatus};
use codewhale::task_events::{finish_record, start_record};
use codewhale::task_store::{AddPlan, ManagerState};
use codewhale::time::{LocalTime, Timestamp};

fn at(text: &str) -> Timestamp {
    let t = DateTime::parse_from_rfc3339(text).expect("time").with_timezone(&Utc);
    Timestamp { secs: t.timestamp(), nanos: t.timestamp_subsec_nanos() }
}

fn minutes(t: Timestamp, n: i64) -> Timestamp {
    Timestamp { secs: t.secs + 60 * n, nanos: t.nanos }
}

fn millis(t: Timestamp, n: u32) -> Timestamp {
    let nanos = t.nanos + n * 1_000_000;
    Timestamp { secs: t.secs + (nanos / 1_000_000_000) as i64, nanos: nanos % 1_000_000_000 }
}

fn no_offset(_t: Timestamp) -> i32 {
    0
}

fn single(reading: i64) -> LocalTime {
    LocalTime::Single(Timestamp { secs: reading, nanos: 0 })
}

fn config() -> TaskManagerConfig {
    TaskManagerConfig {
        data_dir: "tasks".to_string(),
        worker_count: 1,
        default_workspace: ".".to_string(),
        default_model: "deepseek-v4-flash".to_string(),
        default_mode: "plan".to_string(),
        allow_shell: true,
        trust_mode: true,
        max_subagents: 2,
    }
}

fn automation(id: &str) -> AutomationRecord {
    let now = at("2026-07-09T09:00:00Z");
    AutomationRecord {
        schema_version: CURRENT_AUTOMATION_SCHEMA_VERSION,
        id: id.to_string(),
        name: "Test automation".to_string(),
        prompt: "Run the automation".to_string(),
        rrule: "FREQ=HOURLY;INTERVAL=1".to_string(),
        cwds: Vec::new(),
        model: None,
        mode: None,
        allow_shell: None,
        trust_mode: None,
        auto_approve: None,
        status: AutomationStatus::Active,
        created_at: now,
        updated_at: now,
        next_run_at: None,
        last_run_at: None,
    }
}

fn due(id: &str, next_run_at: Timestamp) -> AutomationRecord {
    let mut record = automation(id);
    record.rrule = "FREQ=MINUTELY;INTERVAL=1".to_string();
    record.next_run_at = Some(next_run_at);
    record
}

fn queued_run(automation: &AutomationRecord, id: &str, now: Timestamp) -> AutomationRunRecord {
    AutomationRunRecord {
        schema_version: CURRENT_RUN_SCHEMA_VERSION,
        id: id.to_string(),
        automation_id: automation.id.clone(),
        scheduled_for: now,
        status: AutomationRunStatus::Queued,
        created_at: now,
        started_at: None,
        ended_at: None,
        task_id: None,
        thread_id: None,
        turn_id: None,
        error: None,
    }
}

/// Everything that is stored. Automations are kept under the names of their files.
struct World {
    automations: BTreeMap<String, AutomationRecord>,
    runs: BTreeMap<(String, String), AutomationRunRecord>,
    /// Runs whose files cannot be read.
    broken_runs: BTreeSet<(String, String)>,
    journal: BTreeMap<(String, String), PendingEnqueueRecord>,
    /// Owners of journal records that cannot be read.
    broken_journals: BTreeSet<String>,
    tasks: ManagerState,
    fail_automation_save: bool,
    fail_run_save: bool,
    crash_after_enqueue: bool,
}

impl World {
    fn new() -> World {
        World {
            automations: BTreeMap::new(),
            runs: BTreeMap::new(),
            broken_runs: BTreeSet::new(),
            journal: BTreeMap::new(),
            broken_journals: BTreeSet::new(),
            tasks: ManagerState::open(Vec::new(), Vec::new()).expect("empty"),
            fail_automation_save: false,
            fail_run_save: false,
            crash_after_enqueue: false,
        }
    }

    fn add(&mut self, record: &AutomationRecord) {
        self.automations.insert(record.id.clone(), record.clone());
    }

    fn note(&mut self, owner: &str, file_stem: &str, pending: &PendingEnqueueRecord) {
        self.journal.insert((owner.to_string(), file_stem.to_string()), pending.clone());
    }

    fn runs_of(&self, id: &str) -> Vec<&AutomationRunRecord> {
        self.runs.values().filter(|run| run.automation_id == id).collect()
    }

    fn save_automation(&mut self, record: &AutomationRecord) -> Result<(), String> {
        if self.fail_automation_save {
            self.fail_automation_save = false;
            return Err("injected automation save failure".to_string());
        }
        self.add(record);
        Ok(())
    }

    fn save_run(&mut self, run: &AutomationRunRecord) -> Result<(), String> {
        if self.fail_run_save {
            self.fail_run_save = false;
            return Err("injected run save failure".to_string());
        }
        self.runs.insert((run.automation_id.clone(), run.id.clone()), run.clone());
        Ok(())
    }

    fn enqueue(&mut self, req: NewTaskRequest, key: &str, now: Timestamp) -> Result<QueuedTask, String> {
        match self.tasks.plan_task(req, &config(), ".", Some(key.to_string()), now) {
            Err(e) => Err(e.message),
            Ok(AddPlan::Existing(id)) => {
                let task = self.tasks.get(&id).expect("known");
                Ok(QueuedTask { id: task.id.clone(), progress: TaskProgress::of(task) })
            }
            Ok(AddPlan::New(record)) => {
                let queued =
                    QueuedTask { id: record.id.clone(), progress: TaskProgress::of(&record) };
                self.tasks.commit_new(record);
                Ok(queued)
            }
        }
    }

    /// Lets a task run to its end.
    fn complete(&mut self, id: &str, now: Timestamp) {
        let task = self.tasks.get(id).expect("known").clone();
        let result = TaskExecutionResult {
            status: TaskStatus::Completed,
            result_text: Some("done".to_string()),
            error: None,
        };
        let mode = task.mode.clone();
        let done = finish_record(start_record(task, now), &result, &mode, &None, now);
        self.tasks.commit_finish(done);
    }

    fn scan(&self, owner: &str) -> (Vec<PendingEnqueueRecord>, bool) {
        let mut blocked = self.broken_journals.contains(owner);
        let mut records = Vec::new();
        for ((automation_id, file_stem), pending) in &self.journal {
            if automation_id == owner {
                match validate_pending_enqueue_record(pending, owner, file_stem) {
                    Ok(()) => records.push(pending.clone()),
                    Err(_) => blocked = true,
                }
            }
        }
        (sort_pending(records), blocked)
    }

    fn listed(&self) -> Vec<AutomationRecord> {
        let files = self
            .automations
            .iter()
            .map(|(file_stem, record)| StoredAutomation::Read {
                file_stem: file_stem.clone(),
                record: record.clone(),
            })
            .collect();
        list_automations(admit_stored(files))
    }

    fn recover(&mut self, now: Timestamp) -> Result<RecoveryRound, String> {
        let mut round = RecoveryRound::new();
        for mut record in self.listed() {
            let owner = record.id.clone();
            let scan = self.scan(&owner);
            let mut handled = false;
            for pending in round.take_up(&owner, Some(scan)) {
                let mut course = Resumption::new(record, pending, now, handled);
                let mut action = course.step(ResumeEvent::Begun, &no_offset, &single);
                loop {
                    let event = match action {
                        ResumeAction::Enqueue(req) => {
                            let key = course.pending.slot_key.clone();
                            ResumeEvent::Enqueued { outcome: self.enqueue(req, &key, now), at: now }
                        }
                        ResumeAction::SaveRun => {
                            self.save_run(&course.pending.run)?;
                            ResumeEvent::RunSaved
                        }
                        ResumeAction::SaveAutomation => {
                            self.save_automation(&course.automation)?;
                            ResumeEvent::AutomationSaved
                        }
                        ResumeAction::DeletePending => {
                            self.journal.remove(&(owner.clone(), course.pending.run.id.clone()));
                            ResumeEvent::PendingDeleted
                        }
                        ResumeAction::Finish => break,
                        ResumeAction::Fail(e) => return Err(e.message),
                    };
                    action = course.step(event, &no_offset, &single);
                }
                handled = course.recovered;
                record = course.automation;
            }
            if handled {
                round.note_recovered(&owner);
            }
        }
        Ok(round)
    }

    fn tick(&mut self, now: Timestamp) -> Result<(), String> {
        let round = self.recover(now)?;
        for record in self.listed() {
            if round.leaves_out(&record.id) {
                continue;
            }
            let owner = record.id.clone();
            let mut tick = SlotTick::new(record, now);
            let mut action = tick.step(TickEvent::Begun, &no_offset, &single);
            loop {
                let event = match action {
                    TickAction::SaveAutomation => {
                        let record = tick.automation.clone();
                        self.save_automation(&record)?;
                        TickEvent::AutomationSaved
                    }
                    TickAction::LoadRun { run_id } => {
                        let key = (owner.clone(), run_id);
                        TickEvent::RunLoaded(if self.broken_runs.contains(&key) {
                            SlotLookup::Invalid
                        } else {
                            match self.runs.get(&key) {
                                Some(run) => SlotLookup::Found(run.scheduled_for),
                                None => SlotLookup::Missing,
                            }
                        })
                    }
                    TickAction::SavePending => {
                        match &tick.stage {
                            TickStage::SavingPending { pending, .. } => {
                                let id = pending.run.id.clone();
                                let pending = pending.clone();
                                self.note(&owner, &id, &pending);
                            }
                            other => panic!("unexpected stage {other:?}"),
                        }
                        TickEvent::PendingSaved
                    }
                    TickAction::Enqueue(req) => {
                        let key = match &tick.stage {
                            TickStage::Enqueueing { pending, .. } => pending.slot_key.clone(),
                            other => panic!("unexpected stage {other:?}"),
                        };
                        let outcome = self.enqueue(req, &key, now);
                        if self.crash_after_enqueue {
                            self.crash_after_enqueue = false;
                            return Err("injected scheduler crash after durable task enqueue".to_string());
                        }
                        TickEvent::Enqueued { outcome, at: now }
                    }
                    TickAction::SaveRun => {
                        let run = match &tick.stage {
                            TickStage::SavingRun { pending, .. } => pending.run.clone(),
                            other => panic!("unexpected stage {other:?}"),
                        };
                        self.save_run(&run)?;
                        TickEvent::RunSaved
                    }
                    TickAction::DeletePending => {
                        self.journal.retain(|(automation_id, _), _| automation_id != &owner);
                        TickEvent::PendingDeleted
                    }
                    TickAction::Finish => break,
                    TickAction::Fail(e) => return Err(e.message),
                };
                action = tick.step(event, &no_offset, &single);
            }
        }
        Ok(())
    }

    fn run_now(&mut self, id: &str, invocation: &str, now: Timestamp) -> Result<AutomationRunRecord, String> {
        let record = self.automations.get(id).expect("known").clone();
        let mut course = ManualRun::new(record, invocation.to_string(), now);
        let mut action = course.step(ManualEvent::Begun);
        loop {
            let event = match action {
                ManualAction::LoadRun { run_id } => {
                    ManualEvent::RunLoaded(self.runs.get(&(id.to_string(), run_id)).cloned())
                }
                ManualAction::LoadPending { run_id } => {
                    ManualEvent::PendingLoaded(self.journal.get(&(id.to_string(), run_id)).cloned())
                }
                ManualAction::SavePending => {
                    match &course.stage {
                        ManualStage::SavingPending { pending } => {
                            let run_id = pending.run.id.clone();
                            let pending = pending.clone();
                            self.note(id, &run_id, &pending);
                        }
                        other => panic!("unexpected stage {other:?}"),
                    }
                    ManualEvent::PendingSaved
                }
                ManualAction::Enqueue(req) => {
                    let key = match &course.stage {
                        ManualStage::Enqueueing { pending } => pending.slot_key.clone(),
                        other => panic!("unexpected stage {other:?}"),
                    };
                    ManualEvent::Enqueued { outcome: self.enqueue(req, &key, now), at: now }
                }
                ManualAction::SaveRun => {
                    let run = match &course.stage {
                        ManualStage::SavingRun { run } => run.clone(),
                        other => panic!("unexpected stage {other:?}"),
                    };
                    self.save_run(&run)?;
                    ManualEvent::RunSaved { at: now }
                }
                ManualAction::SaveAutomation => {
                    let record = course.automation.clone();
                    self.save_automation(&record)?;
                    ManualEvent::AutomationSaved
                }
                ManualAction::DeletePending { run_id } => {
                    self.journal.remove(&(id.to_string(), run_id));
                    ManualEvent::PendingDeleted
                }
                ManualAction::Finish(run) => return Ok(run),
                ManualAction::Fail(e) => return Err(e.message),
            };
            action = course.step(event);
        }
    }

    fn reconcile(&mut self, id: &str, now: Timestamp) {
        let seen = self
            .runs_of(id)
            .into_iter()
            .map(|run| ObservedRun {
                run: run.clone(),
                task: task_to_look_up(run)
                    .and_then(|task| self.tasks.get(task))
                    .map(TaskProgress::of),
            })
            .collect();
        let plan = reconcile_runs(seen, now, None);
        for run in plan.saves {
            self.save_run(&run).expect("save");
        }
        if let Some(terminal_at) = plan.latest_terminal_at {
            let record = self.automations.get(id).expect("known").clone();
            let (record, changed) = settle_last_run(record, terminal_at, now);
            if changed {
                self.add(&record);
            }
        }
    }
}

const INVOCATION: &str = "67e55044-10b1-426f-9247-bb680e5fe0c8";

#[test]
fn invalid_automation_semantics_do_not_block_healthy_scheduler() {
    let now = at("2026-07-09T09:27:59.900Z");
    let mut world = World::new();
    let healthy = due("healthy", minutes(now, -1));
    world.add(&healthy);

    let mut bad_rrule = automation("bad-rrule");
    bad_rrule.rrule = "FREQ=DAILY".to_string();
    world.add(&bad_rrule);

    let mismatched = automation(INVOCATION);
    world.automations.insert("mismatched-file".to_string(), mismatched.clone());

    let unsafe_id = automation("../escape");
    world.automations.insert("unsafe-record".to_string(), unsafe_id);

    let mut empty_name = automation("empty-name");
    empty_name.name.clear();
    world.add(&empty_name);

    let mut empty_prompt = automation("empty-prompt");
    empty_prompt.prompt.clear();
    world.add(&empty_prompt);

    world.tick(now).expect("tick");

    let listed = world.listed();
    assert_eq!(listed.len(), 1);
    assert_eq!(listed[0].id, healthy.id);
    assert_eq!(world.runs_of(&healthy.id).len(), 1);
    assert_eq!(world.runs.len(), 1);
    assert_eq!(world.tasks.list_tasks(None).len(), 1);

    let error = validate_automation_record(&bad_rrule, "bad-rrule").expect_err("no rule");
    assert!(error.message.contains("Unsupported RRULE FREQ"));
    let error =
        validate_automation_record(&mismatched, "mismatched-file").expect_err("another name");
    assert!(error.message.contains("does not match"));
    let mut unsafe_id = automation("../escape");
    assert!(validate_automation_record(&unsafe_id, "unsafe-record").is_err());
    unsafe_id.id = "unsafe-record".to_string();
    assert!(validate_automation_record(&unsafe_id, "unsafe-record").is_ok());
    assert!(validate_automation_record(&empty_name, "empty-name").is_err());
    assert!(validate_automation_record(&empty_prompt, "empty-prompt").is_err());
}

#[test]
fn automation_enqueue_uses_default_and_explicit_task_settings() {
    let mut world = World::new();
    let now = at("2026-07-09T09:27:59.900Z");
    let plain = automation("plain");
    let mut run = queued_run(&plain, "run-plain", now);
    let outcome = world.enqueue(task_request_for(&plain), "first", now);
    record_enqueue(&mut run, outcome, now);
    let task = world.tasks.get(run.task_id.as_deref().expect("task id")).expect("task");
    assert_eq!(task.mode, "agent");
    assert!(!task.allow_shell);
    assert!(!task.trust_mode);
    assert!(!task.auto_approve);

    let mut explicit = automation("explicit");
    explicit.mode = Some("plan".to_string());
    explicit.allow_shell = Some(true);
    explicit.trust_mode = Some(true);
    explicit.auto_approve = Some(false);
    explicit.model = Some("scheduled-model".to_string());
    explicit.cwds = vec!["/work/one".to_string(), "/work/two".to_string()];
    let mut run = queued_run(&explicit, "run-explicit", now);
    let outcome = world.enqueue(task_request_for(&explicit), "second", now);
    record_enqueue(&mut run, outcome, now);
    let task = world.tasks.get(run.task_id.as_deref().expect("task id")).expect("task");
    assert_eq!(task.mode, "plan");
    assert_eq!(task.model, "scheduled-model");
    assert_eq!(task.workspace, "/work/one");
    assert!(task.allow_shell);
    assert!(task.trust_mode);
    assert!(!task.auto_approve);
}

#[test]
fn enqueue_run_reflects_queued_task_without_fake_start_time() {
    let mut world = World::new();
    let now = at("2026-07-09T09:27:59.900Z");
    let record = automation("a");
    let mut run = queued_run(&record, "run", now);
    let outcome = world.enqueue(task_request_for(&record), "key", now);
    record_enqueue(&mut run, outcome, now);
    let task = world.tasks.get(run.task_id.as_deref().expect("queued task id")).expect("task");
    assert_eq!(task.status, TaskStatus::Queued);
    assert_eq!(run.status, AutomationRunStatus::Queued);
    assert_eq!(run.started_at, None);
}

#[test]
fn runs_that_cannot_be_queued_fail() {
    let now = at("2026-07-09T09:27:59.900Z");
    let mut run = queued_run(&automation("a"), "run", now);
    record_enqueue(&mut run, Err("no room".to_string()), now);
    assert_eq!(run.status, AutomationRunStatus::Failed);
    assert_eq!(run.ended_at, Some(now));
    assert_eq!(run.error.as_deref(), Some("Failed to enqueue task: no room"));
    assert_eq!(run.task_id, None);
}

#[test]
fn reconcile_persists_runtime_link_while_task_is_still_running() {
    let mut world = World::new();
    let now = at("2026-07-09T09:27:59.900Z");
    let record = automation("a");
    world.add(&record);
    let mut run = queued_run(&record, "run", now);
    let outcome = world.enqueue(task_request_for(&record), "key", now);
    record_enqueue(&mut run, outcome, now);
    world.save_run(&run).expect("save");
    let task_id = run.task_id.clone().expect("task id");
    let mut task = start_record(world.tasks.get(&task_id).expect("task").clone(), now);
    task.thread_id = Some("sched-thread".to_string());
    task.turn_id = Some("turn-running".to_string());
    world.tasks.commit(task);

    world.reconcile("a", minutes(now, 1));

    let stored = world.runs_of("a")[0].clone();
    assert_eq!(stored.status, AutomationRunStatus::Running);
    assert_eq!(stored.thread_id.as_deref(), Some("sched-thread"));
    assert_eq!(stored.turn_id.as_deref(), Some("turn-running"));
    assert_eq!(stored.started_at, Some(now));
}

#[test]
fn last_run_at_never_moves_backwards() {
    let mut world = World::new();
    let now = at("2026-07-09T09:27:59.900Z");
    let mut record = automation("a");
    let known = minutes(now, 60);
    record.last_run_at = Some(known);
    world.add(&record);
    let mut run = queued_run(&record, "run", now);
    let outcome = world.enqueue(task_request_for(&record), "key", now);
    record_enqueue(&mut run, outcome, now);
    world.save_run(&run).expect("save");
    world.complete(&run.task_id.clone().expect("task id"), now);

    world.reconcile("a", now);

    assert_eq!(world.runs_of("a")[0].status, AutomationRunStatus::Completed);
    assert_eq!(world.automations["a"].last_run_at, Some(known));
}

#[test]
fn reconcile_repairs_last_run_at_from_unchanged_terminal_runs() {
    let mut world = World::new();
    let now = at("2026-07-09T09:27:59.900Z");
    let record = automation("a");
    world.add(&record);
    let ended = minutes(now, -1);
    let mut run = queued_run(&record, "run", now);
    run.status = AutomationRunStatus::Completed;
    run.ended_at = Some(ended);
    world.save_run(&run).expect("save");

    world.reconcile("a", now);

    assert_eq!(world.automations["a"].last_run_at, Some(ended));
}

#[test]
fn reconcile_stabilizes_legacy_terminal_run_without_ended_at() {
    let mut world = World::new();
    let now = at("2026-07-09T09:27:59.900Z");
    let record = automation("a");
    world.add(&record);
    let mut run = queued_run(&record, "run", now);
    run.status = AutomationRunStatus::Completed;
    world.save_run(&run).expect("save");

    world.reconcile("a", now);
    let first = world.automations["a"].clone();
    let settled = first.last_run_at.expect("first reconcile cursor");
    world.reconcile("a", millis(now, 5));

    assert_eq!(world.automations["a"].last_run_at, Some(settled));
    assert_eq!(world.automations["a"].updated_at, first.updated_at);
    assert_eq!(world.runs_of("a")[0].ended_at, Some(settled));
}

#[test]
fn reconcile_scans_all_non_terminal_runs_beyond_first_hundred() {
    let mut world = World::new();
    let now = at("2026-07-09T09:27:59.900Z");
    let record = automation("a");
    world.add(&record);
    let task = world.enqueue(task_request_for(&record), "seed", now).expect("task").id;
    world.complete(&task, now);
    for index in 0..101 {
        let mut run = queued_run(&record, &format!("run-{index:03}"), now);
        run.status = AutomationRunStatus::Running;
        run.task_id = Some(task.clone());
        world.save_run(&run).expect("save");
    }

    world.reconcile("a", now);

    assert_eq!(world.runs_of("a").len(), 101);
    assert!(world.runs_of("a").iter().all(|run| run.status == AutomationRunStatus::Completed));
}

#[test]
fn scheduler_fast_forwards_stale_slots_without_replaying_backlog() {
    let mut world = World::new();
    let now = at("2026-07-09T09:27:59.900Z");
    world.add(&due("a", minutes(now, -10)));

    world.tick(now).expect("tick");
    assert!(world.automations["a"].next_run_at.expect("next run") > now);
    assert_eq!(world.runs_of("a").len(), 1);
    assert!(world.runs_of("a")[0].scheduled_for > minutes(now, -2));
    assert_eq!(world.runs_of("a")[0].scheduled_for, at("2026-07-09T09:27:00Z"));

    world.tick(millis(now, 50)).expect("tick");
    assert_eq!(world.runs_of("a").len(), 1);
    assert!(world.journal.is_empty());
}

#[test]
fn scheduler_recovery_consumes_only_one_overdue_slot() {
    let mut world = World::new();
    let now = at("2026-07-09T09:27:59.900Z");
    let stale = minutes(now, -10);
    world.add(&due("a", stale));
    let pending = PendingEnqueueRecord::for_slot("a", stale, stale);
    world.note("a", &pending.run.id, &pending);

    world.tick(now).expect("tick");

    assert_eq!(world.tasks.task_count(), 1);
    assert_eq!(world.runs_of("a").len(), 1);
    assert!(world.automations["a"].next_run_at.expect("next run") > now);
}

#[test]
fn scheduler_recovery_persists_cursor_before_deleting_pending() {
    let mut world = World::new();
    let now = at("2026-07-09T09:27:59.900Z");
    let stale = minutes(now, -10);
    world.add(&due("a", stale));
    let pending = PendingEnqueueRecord::for_slot("a", stale, stale);
    world.note("a", &pending.run.id, &pending);
    world.fail_automation_save = true;

    world.tick(now).expect_err("the cursor cannot be stored");
    assert_eq!(world.journal.len(), 1);
    assert_eq!(world.tasks.task_count(), 1);
    let task = world.tasks.list_tasks(None)[0].id.clone();
    world.complete(&task, now);

    world.tick(now).expect("tick");

    assert!(world.journal.is_empty());
    assert_eq!(world.tasks.task_count(), 1);
    assert_eq!(world.runs_of("a").len(), 1);
    assert!(world.automations["a"].next_run_at.expect("next run") > now);
    assert!(world.automations["a"].last_run_at.is_some());
}

#[test]
fn manual_run_recovers_journaled_enqueue() {
    let mut world = World::new();
    let now = at("2026-07-09T09:27:59.900Z");
    let mut record = automation("a");
    record.status = AutomationStatus::Paused;
    world.add(&record);
    world.fail_run_save = true;

    let error = world.run_now("a", INVOCATION, now).expect_err("the run cannot be stored");
    assert!(error.contains("injected run save failure"));
    assert_eq!(world.tasks.task_count(), 1);
    assert_eq!(world.journal.len(), 1);

    world.tick(now).expect("tick");

    assert_eq!(world.tasks.task_count(), 1);
    assert_eq!(world.runs_of("a").len(), 1);
    assert!(world.journal.is_empty());
}

#[test]
fn manual_run_invocation_id_is_idempotent() {
    let mut world = World::new();
    let now = at("2026-07-09T09:27:59.900Z");
    world.add(&automation("a"));

    let first = world.run_now("a", INVOCATION, now).expect("first");
    let second = world.run_now("a", INVOCATION, minutes(now, 1)).expect("second");

    assert_eq!(first.id, second.id);
    assert_eq!(first.id, format!("manual_{INVOCATION}"));
    assert_eq!(first.task_id, second.task_id);
    assert_eq!(world.tasks.task_count(), 1);
    assert_eq!(world.runs_of("a").len(), 1);
}

#[test]
fn one_invocation_may_be_written_in_many_ways() {
    let mut world = World::new();
    let now = at("2026-07-09T09:27:59.900Z");
    world.add(&automation("a"));
    let first = world.run_now("a", "67E55044-10B1-426F-9247-BB680E5FE0C8", now).expect("first");
    let second = world.run_now("a", "{67e55044-10b1-426f-9247-bb680e5fe0c8}", now).expect("second");
    let third = world.run_now("a", "67e5504410b1426f9247bb680e5fe0c8", now).expect("third");
    let fourth = world
        .run_now("a", "urn:uuid:67e55044-10b1-426f-9247-bb680e5fe0c8", now)
        .expect("fourth");
    assert_eq!(first.id, format!("manual_{INVOCATION}"));
    assert_eq!((first.id.clone(), first.id.clone(), first.id), (second.id, third.id, fourth.id));
    assert_eq!(world.tasks.task_count(), 1);
}

#[test]
fn manual_runs_need_an_invocation_id() {
    let mut world = World::new();
    world.add(&automation("a"));
    let error = world.run_now("a", "soon", at("2026-07-09T09:00:00Z")).expect_err("no identifier");
    assert_eq!(error, "Invalid manual run invocation id 'soon'");
    assert_eq!(world.tasks.task_count(), 0);
}

#[test]
fn a_stored_manual_run_is_repaired() {
    let mut world = World::new();
    let now = at("2026-07-09T09:27:59.900Z");
    world.add(&automation("a"));
    world.fail_automation_save = true;
    world.run_now("a", INVOCATION, now).expect_err("the automation cannot be stored");
    assert_eq!(world.journal.len(), 1);
    let mut run = world.runs_of("a")[0].clone();
    run.status = AutomationRunStatus::Completed;
    run.ended_at = Some(minutes(now, 2));
    world.save_run(&run).expect("save");

    let again = world.run_now("a", INVOCATION, minutes(now, 3)).expect("repaired");

    assert_eq!(again.status, AutomationRunStatus::Completed);
    assert!(world.journal.is_empty());
    assert_eq!(world.automations["a"].last_run_at, Some(minutes(now, 2)));
    assert_eq!(world.automations["a"].updated_at, minutes(now, 3));
    assert_eq!(world.tasks.task_count(), 1);
}

#[test]
fn corrupt_pending_is_quarantined_without_blocking_other_automations() {
    let mut world = World::new();
    let now = at("2026-07-09T09:27:59.900Z");
    for id in ["corrupt", "future", "mismatched", "healthy"] {
        world.add(&due(id, minutes(now, -1)));
    }
    world.broken_journals.insert("corrupt".to_string());
    let mut future = PendingEnqueueRecord::for_slot("future", minutes(now, -1), now);
    future.schema_version = CURRENT_PENDING_ENQUEUE_SCHEMA_VERSION + 1;
    world.note("future", &future.run.id.clone(), &future);
    let mut mismatched = PendingEnqueueRecord::for_slot("mismatched", minutes(now, -1), now);
    mismatched.run.automation_id = "different-automation".to_string();
    world.note("mismatched", &mismatched.run.id.clone(), &mismatched);

    world.tick(now).expect("tick");

    assert_eq!(world.tasks.task_count(), 1);
    assert_eq!(world.runs_of("healthy").len(), 1);
    for id in ["corrupt", "future", "mismatched"] {
        assert!(world.runs_of(id).is_empty());
    }
    assert_eq!(world.journal.len(), 2);
}

#[test]
fn mixed_valid_and_invalid_pending_blocks_owner_before_enqueue() {
    let mut world = World::new();
    let now = at("2026-07-09T09:27:59.900Z");
    world.add(&due("mixed", minutes(now, -1)));
    world.add(&due("healthy", minutes(now, -1)));
    let valid = PendingEnqueueRecord::for_slot("mixed", minutes(now, -1), now);
    world.note("mixed", &valid.run.id.clone(), &valid);
    let wrong_stem = PendingEnqueueRecord::for_slot("mixed", minutes(now, -2), now);
    world.note("mixed", "wrong-file", &wrong_stem);
    let mut unsafe_id = PendingEnqueueRecord::for_slot("mixed", minutes(now, -3), now);
    unsafe_id.run.id = "../escape".to_string();
    world.note("mixed", "unsafe-id", &unsafe_id);
    let mut wrong_kind = PendingEnqueueRecord::for_slot("mixed", minutes(now, -4), now);
    wrong_kind.kind = PendingEnqueueKind::Manual;
    world.note("mixed", &wrong_kind.run.id.clone(), &wrong_kind);
    let mut wrong_key = PendingEnqueueRecord::for_slot("mixed", minutes(now, -5), now);
    wrong_key.slot_key = "automation:wrong:slot:0".to_string();
    world.note("mixed", &wrong_key.run.id.clone(), &wrong_key);

    world.tick(now).expect("tick");

    assert_eq!(world.tasks.task_count(), 1);
    assert_eq!(world.runs_of("healthy").len(), 1);
    assert!(world.runs_of("mixed").is_empty());
    assert_eq!(world.journal.len(), 5);
}

#[test]
fn forkguard_scheduler_recovers_crash_after_task_enqueue_without_duplicate_task() {
    let mut world = World::new();
    let now = at("2026-07-09T09:27:59.900Z");
    world.add(&due("a", minutes(now, -1)));
    world.crash_after_enqueue = true;

    let error = world.tick(now).expect_err("crash between the task and the run");
    assert!(error.contains("injected scheduler crash"));
    assert_eq!(world.tasks.task_count(), 1);
    assert!(world.runs_of("a").is_empty());

    world.tick(millis(now, 25)).expect("tick");

    assert_eq!(world.tasks.task_count(), 1);
    assert_eq!(world.runs_of("a").len(), 1);
    assert!(world.runs_of("a")[0].task_id.is_some());
    assert!(world.automations["a"].next_run_at.expect("next run") > millis(now, 25));

    world.tick(millis(now, 50)).expect("tick");
    assert_eq!(world.tasks.task_count(), 1);
    assert_eq!(world.runs_of("a").len(), 1);
}

#[test]
fn reopened_managers_resume_with_the_same_task() {
    let mut world = World::new();
    let now = at("2026-07-09T09:27:59.900Z");
    world.add(&due("a", minutes(now, -1)));
    world.add(&due("b", minutes(now, -1)));
    world.broken_journals.insert("b".to_string());
    world.crash_after_enqueue = true;
    world.tick(now).expect_err("crash between the task and the run");
    let queued: Vec<String> = world.tasks.tasks.iter().map(|task| task.id.clone()).collect();

    world.tasks = ManagerState::open(world.tasks.tasks.clone(), Vec::new()).expect("reopened");
    world.tick(millis(now, 25)).expect("tick");

    let known: Vec<String> = world.tasks.tasks.iter().map(|task| task.id.clone()).collect();
    assert_eq!(known, queued);
    assert_eq!(world.runs_of("a").len(), 1);
    assert_eq!(world.runs_of("a")[0].task_id.as_ref(), queued.first());
    assert!(world.journal.is_empty());
    assert!(world.runs_of("b").is_empty());
    assert!(world.automations["a"].next_run_at.expect("next run") > millis(now, 25));
}

#[test]
fn journals_in_doubt_hold_up_their_own() {
    let now = at("2026-07-09T09:27:59.900Z");
    let mut round = RecoveryRound::new();
    let pending = PendingEnqueueRecord::for_slot("a", now, now);
    assert_eq!(round.take_up("a", Some((vec![pending.clone()], false))).len(), 1);
    assert!(round.take_up("b", Some((vec![pending], true))).is_empty());
    assert!(round.take_up("c", None).is_empty());
    round.note_recovered("d");
    let left_out: Vec<bool> = ["a", "b", "c", "d"].iter().map(|id| round.leaves_out(id)).collect();
    assert_eq!(left_out, [false, true, true, true]);
}

#[test]
fn scheduler_looks_up_only_the_deterministic_slot_file() {
    let mut world = World::new();
    let now = at("2026-07-09T09:27:59.900Z");
    world.add(&due("a", minutes(now, -1)));
    world.broken_runs.insert(("a".to_string(), "unrelated-corrupt".to_string()));

    world.tick(now).expect("tick");

    assert_eq!(world.tasks.task_count(), 1);
    assert_eq!(world.runs_of("a").len(), 1);
    let slot = at("2026-07-09T09:27:00Z").secs * 1_000_000;
    assert_eq!(world.runs_of("a")[0].id, format!("slot_{slot}"));
}

#[test]
fn corrupt_deterministic_slot_fails_closed_without_blocking_other_owners() {
    let mut world = World::new();
    let now = at("2026-07-09T09:27:59.900Z");
    world.add(&due("blocked", minutes(now, -1)));
    world.add(&due("healthy", minutes(now, -1)));
    let due_at = at("2026-07-09T09:27:00Z");
    let target = PendingEnqueueRecord::for_slot("blocked", due_at, now);
    world.broken_runs.insert(("blocked".to_string(), target.run.id));

    world.tick(now).expect("tick");

    assert_eq!(world.tasks.task_count(), 1);
    assert_eq!(world.automations["blocked"].next_run_at, Some(due_at));
}

#[test]
fn a_slot_that_is_taken_is_passed_over() {
    let mut world = World::new();
    let now = at("2026-07-09T09:27:59.900Z");
    let slot = at("2026-07-09T09:27:00Z");
    world.add(&due("a", slot));
    let run = PendingEnqueueRecord::for_slot("a", slot, now).run;
    world.save_run(&run).expect("save");
    world.tick(now).expect("tick");
    assert_eq!(world.tasks.task_count(), 0);
    assert_eq!(world.automations["a"].next_run_at, Some(at("2026-07-09T09:28:00Z")));

    // A record under the slot's name that was planned for another time is not trusted.
    let mut world = World::new();
    world.add(&due("a", slot));
    let mut run = PendingEnqueueRecord::for_slot("a", slot, now).run;
    run.scheduled_for = minutes(slot, 1);
    world.save_run(&run).expect("save");
    world.tick(now).expect("tick");
    assert_eq!(world.tasks.task_count(), 0);
    assert_eq!(world.automations["a"].next_run_at, Some(slot));
}

#[test]
fn the_first_tick_sets_the_cursor() {
    let mut world = World::new();
    let now = at("2026-07-09T09:27:30Z");
    world.add(&automation("a"));
    let mut paused = automation("p");
    paused.status = AutomationStatus::Paused;
    world.add(&paused);
    world.tick(now).expect("tick");
    assert_eq!(world.automations["a"].next_run_at, Some(at("2026-07-09T10:27:00Z")));
    assert_eq!(world.automations["a"].updated_at, now);
    assert_eq!(world.automations["p"].next_run_at, None);
    assert_eq!(world.tasks.task_count(), 0);
}

#[test]
fn a_rule_that_cannot_be_read_stops_the_tick() {
    let mut record = automation("a");
    record.rrule = "FREQ=DAILY".to_string();
    let mut tick = SlotTick::new(record, at("2026-07-09T09:27:30Z"));
    match tick.step(TickEvent::Begun, &no_offset, &single) {
        TickAction::Fail(error) => assert!(error.message.contains("Unsupported RRULE FREQ")),
        other => panic!("unexpected action {other:?}"),
    }
}

#[test]
fn the_machine_zone_serves_a_tick() {
    let now = at("2026-07-09T09:27:59.900Z");
    let mut tick = SlotTick::new(due("a", minutes(now, -1)), now);
    assert!(matches!(tick.step_here(TickEvent::Begun), TickAction::SaveAutomation));
    assert!(matches!(tick.step_here(TickEvent::AutomationSaved), TickAction::LoadRun { .. }));
    let pending = PendingEnqueueRecord::for_slot("a", minutes(now, -1), now);
    let mut course = Resumption::new(due("a", now), pending, now, false);
    assert!(matches!(course.step_here(ResumeEvent::Begun), ResumeAction::Enqueue(_)));
}

#[test]
fn paused_automations_keep_their_records() {
    let mut world = World::new();
    let now = at("2026-07-09T09:27:59.900Z");
    let mut record = due("a", minutes(now, -1));
    record.status = AutomationStatus::Paused;
    record.next_run_at = None;
    world.add(&record);
    let pending = PendingEnqueueRecord::for_slot("a", minutes(now, -1), now);
    world.note("a", &pending.run.id.clone(), &pending);
    world.tick(now).expect("tick");
    assert_eq!(world.tasks.task_count(), 1);
    assert_eq!(world.automations["a"].updated_at, record.updated_at);
    assert!(world.journal.is_empty());
}

#[test]
fn ticks_are_not_too_frequent() {
    assert_eq!(AutomationSchedulerConfig::default().tick_interval_secs, 15);
    assert_eq!(AutomationSchedulerConfig::default().interval_secs(), 15);
    assert_eq!(AutomationSchedulerConfig { tick_interval_secs: 1 }.interval_secs(), 5);
}
