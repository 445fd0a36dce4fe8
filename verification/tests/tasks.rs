//! Tasks: how they are added, run, stored and read back.
use std::cell::RefCell;

use chrono::{DateTime, Utc};
use codewhale::json::{Json, Member};
use codewhale::locations::artifact_absolute_path;
use codewhale::storage_id::ensure_safe_storage_id;
use codewhale::task::{
    approval_of, artifact_filename, artifact_filename_stamped, artifact_reference, needs_artifact,
    normalize_idempotency_key, normalize_persisted_task_mode, normalize_task_mode, sanitize_filename, summarize_json,
    summarize_text, EngineTaskExecutor, ExecutionTask, NewTaskRequest, RuntimeSettings,
    TaskArtifactRef, TaskAttemptRecord, TaskChecklistItem, TaskChecklistState, TaskExecutionEvent,
    TaskExecutionReportError, TaskExecutionResult, TaskGateRecord, TaskGithubEvent,
    TaskManagerConfig, TaskRecord, TaskStatus, TaskSummary, TaskTimelineEntry, TaskToolCallSummary,
    TaskToolStatus, ARTIFACT_THRESHOLD, CURRENT_TASK_SCHEMA_VERSION,
};
use codewhale::task_events::{
    apply_execution_event, cancel_record, event_artifact, finish_record, settle_result,
    start_record, CancelEffect,
};
use codewhale::task_recovery::{
    insert_loaded_task, knows_task, rebuild_queue, recover_task, sort_ids,
};
use codewhale::task_store::{AddPlan, ManagerState, MAX_TASK_ID_GENERATION_ATTEMPTS};
use codewhale::task_updates::{apply_task_updates, task_update_parts, Parsed, TaskUpdates};
use codewhale::time::Timestamp;

fn at(text: &str) -> Timestamp {
    let t = DateTime::parse_from_rfc3339(text).expect("time").with_timezone(&Utc);
    Timestamp { secs: t.timestamp(), nanos: t.timestamp_subsec_nanos() }
}

fn now() -> Timestamp {
    at("2026-07-09T09:00:00Z")
}

fn later(secs: i64) -> Timestamp {
    Timestamp { secs: now().secs + secs, nanos: 0 }
}

fn config() -> TaskManagerConfig {
    TaskManagerConfig {
        data_dir: "tasks".to_string(),
        worker_count: 1,
        default_workspace: ".".to_string(),
        default_model: "deepseek-v4-flash".to_string(),
        default_mode: "agent".to_string(),
        allow_shell: false,
        trust_mode: false,
        max_subagents: 2,
    }
}

fn empty() -> ManagerState {
    ManagerState::open(Vec::new(), Vec::new()).expect("empty")
}

fn prompt(text: &str) -> NewTaskRequest {
    NewTaskRequest::from_prompt(text.to_string())
}

fn planned(state: &ManagerState, req: NewTaskRequest, key: Option<&str>) -> AddPlan {
    state
        .plan_task(req, &config(), ".", key.map(ToString::to_string), now())
        .expect("planned")
}

/// Adds a task as a manager does, and gives a copy of it.
fn add(state: &mut ManagerState, req: NewTaskRequest, key: Option<&str>) -> TaskRecord {
    match planned(state, req, key) {
        AddPlan::New(task) => {
            state.commit_new(task.clone());
            task
        }
        AddPlan::Existing(id) => state.get(&id).expect("known").clone(),
    }
}

fn queued(text: &str) -> TaskRecord {
    add(&mut empty(), prompt(text), None)
}

fn object(members: Vec<(&str, Json)>) -> Json {
    Json::Object(
        members
            .into_iter()
            .map(|(key, value)| Member { key: key.to_string(), value })
            .collect(),
    )
}

fn text(value: &str) -> Json {
    Json::Text(value.to_string())
}

fn result(status: TaskStatus, words: Option<&str>) -> TaskExecutionResult {
    TaskExecutionResult { status, result_text: words.map(ToString::to_string), error: None }
}

fn gate(id: &str) -> TaskGateRecord {
    TaskGateRecord {
        id: id.to_string(),
        gate: "test".to_string(),
        command: "cargo test".to_string(),
        cwd: ".".to_string(),
        exit_code: Some(0),
        status: "passed".to_string(),
        classification: "passed".to_string(),
        duration_ms: 1,
        summary: "ok".to_string(),
        log_path: None,
        recorded_at: now(),
    }
}

fn apply(task: TaskRecord, event: TaskExecutionEvent) -> TaskRecord {
    apply_execution_event(task, event, later(1), None, TaskUpdates::none()).expect("applied")
}

// Adding ---------------------------------------------------------------------
#[test]
fn task_ids_keep_full_uuid_entropy() {
    let task = queued("keep the full task UUID");
    let suffix = task.id.strip_prefix("task_").expect("task id must keep the task_ prefix");
    assert_eq!(suffix.len(), 36, "task id must retain the full UUID text");
    assert!(uuid::Uuid::parse_str(suffix).is_ok(), "task id suffix must be a UUID");
}

#[test]
fn task_id_collision_does_not_overwrite_existing_task() {
    let mut state = empty();
    let ids = RefCell::new(vec!["task_fresh", "task_same", "task_same"]);
    let generate = || ids.borrow_mut().pop().expect("test task id").to_string();
    let plan = |state: &ManagerState, words: &str| {
        match state.plan_task_with(prompt(words), &config(), ".", None, now(), &generate) {
            Ok(AddPlan::New(task)) => task,
            other => panic!("unexpected plan {other:?}"),
        }
    };
    let first = plan(&state, "keep the original task");
    state.commit_new(first.clone());
    let second = plan(&state, "create a distinct task");
    state.commit_new(second.clone());

    assert_ne!(first.id, second.id, "a collision must be retried");
    assert_eq!(second.id, "task_fresh");
    assert_eq!(state.get_task(&first.id).expect("known").prompt, "keep the original task");
    assert_eq!(state.list_tasks(None).len(), 2);
}

#[test]
fn collisions_are_not_retried_for_ever() {
    let mut state = empty();
    let tries = RefCell::new(0);
    let same = || {
        *tries.borrow_mut() += 1;
        "task_same".to_string()
    };
    if let Ok(AddPlan::New(task)) = state.plan_task_with(prompt("one"), &config(), ".", None, now(), &same) {
        state.commit_new(task);
    }
    *tries.borrow_mut() = 0;
    assert!(state.plan_task_with(prompt("two"), &config(), ".", None, now(), &same).is_err());
    assert_eq!(*tries.borrow(), MAX_TASK_ID_GENERATION_ATTEMPTS);
}

#[test]
fn idempotency_key_returns_one_durable_task() {
    let mut state = empty();
    let key = Some("automation:abc:2026-07-10T00:00:00Z");
    let first = add(&mut state, prompt("scheduled work"), key);
    let second = add(&mut state, prompt("scheduled work"), key);
    assert_eq!(first.id, second.id);
    assert_eq!(state.list_tasks(None).len(), 1);
}

#[test]
fn idempotency_index_is_updated_and_rebuilt_on_reopen() {
    let mut state = empty();
    let key = "automation:indexed:2026-07-10T00:00:00Z";
    let first = add(&mut state, prompt("indexed work"), Some(key));
    assert_eq!(state.idempotency_index.len(), 1);
    assert_eq!(state.idempotency_index[0].key, key);
    assert_eq!(state.idempotency_index[0].task_id, first.id);

    let mut reopened = ManagerState::open(state.tasks, state.queue).expect("reopened");
    assert_eq!(reopened.idempotency_index[0].task_id, first.id);
    let repeated = add(&mut reopened, prompt("ignored retry"), Some(key));
    assert_eq!(repeated.id, first.id);
    assert_eq!(reopened.list_tasks(None).len(), 1);
}

#[test]
fn add_task_rejects_mode_outside_persisted_mode_set() {
    let state = empty();
    let mut req = prompt("invalid persisted mode");
    req.mode = Some("observer".to_string());
    let error = state.plan_task(req, &config(), ".", None, now()).expect_err("unknown mode");
    assert!(error.message.contains("agent, plan, yolo"));
    assert!(state.list_tasks(None).is_empty());
}

#[test]
fn tasks_need_a_prompt() {
    assert!(empty().plan_task(prompt(" \n"), &config(), ".", None, now()).is_err());
}

#[test]
fn default_workspace_updates_for_future_tasks() {
    let state = empty();
    let plan = state.plan_task(prompt("test workspace default"), &config(), "/new/place", None, now());
    match plan {
        Ok(AddPlan::New(task)) => assert_eq!(task.workspace, "/new/place"),
        other => panic!("unexpected plan {other:?}"),
    }
}

#[test]
fn add_task_without_optional_fields_does_not_grant_shell_or_auto_approve() {
    let req = NewTaskRequest {
        prompt: "fix TODOs and write a README".to_string(),
        model: None,
        workspace: None,
        mode: None,
        allow_shell: None,
        trust_mode: None,
        auto_approve: None,
    };
    let task = add(&mut empty(), req, None);
    assert!(!task.allow_shell);
    assert!(!task.auto_approve);
    assert!(!task.trust_mode);
    assert_eq!(task.model, "deepseek-v4-flash");
    assert_eq!(task.mode, "agent");
    assert_eq!(task.status, TaskStatus::Queued);
    assert_eq!(task.timeline.len(), 1);
}

#[test]
fn modes_have_canonical_names() {
    assert_eq!(normalize_task_mode("plan").expect("known"), "plan");
    assert!(normalize_task_mode("observer").is_err());
    for (canonical, alias) in [
        ("agent", " 1 "),
        ("agent", " AgEnT "),
        ("plan", "2"),
        ("plan", " PlAn "),
        ("yolo", " 3 "),
        ("yolo", "YoLo"),
    ] {
        assert_eq!(normalize_persisted_task_mode(alias).expect("known"), canonical);
    }
    assert!(normalize_persisted_task_mode("4").is_err());
}

#[test]
fn keys_are_trimmed_and_not_blank() {
    assert_eq!(normalize_idempotency_key("  k ").expect("key"), "k");
    assert!(normalize_idempotency_key("  ").is_err());
}

// Looking up -----------------------------------------------------------------
#[test]
fn tasks_are_found_by_prefix() {
    let mut state = empty();
    for id in ["task_aa", "task_ab", "task_b"] {
        let mut task = queued("x");
        task.id = id.to_string();
        state.commit_new(task);
    }
    assert_eq!(state.resolve_task_id("task_b").expect("one"), "task_b");
    assert_eq!(state.get_task("task_aa").expect("one").id, "task_aa");
    assert!(state.resolve_task_id("task_a").expect_err("two").message.contains("mbiguous"));
    assert_eq!(
        state.resolve_task_id("nope").expect_err("none").message,
        "Task not found: nope"
    );
}

#[test]
fn summaries_show_the_start_of_a_prompt() {
    let mut task = queued("short prompt");
    assert_eq!(TaskSummary::of(&task).prompt_summary, "short prompt");
    task.prompt = "x".repeat(300);
    assert!(TaskSummary::of(&task).prompt_summary.ends_with("..."));
}

// Running --------------------------------------------------------------------
#[test]
fn workers_pass_over_tasks_that_do_not_wait() {
    let mut state = empty();
    let gone = add(&mut state, prompt("gone"), None);
    let next = add(&mut state, prompt("next"), None);
    let mut done = state.get(&gone.id).expect("known").clone();
    done.status = TaskStatus::Completed;
    state.commit(done);
    let (waiting, dropped) = state.next_waiting();
    assert_eq!(waiting, Some(next.id));
    assert!(dropped);
    assert_eq!(state.queue.len(), 1);
}

#[test]
fn executor_non_terminal_results_fail_closed() {
    for status in [TaskStatus::Queued, TaskStatus::Running] {
        let settled = settle_result(result(status, None), false);
        assert_eq!(settled.status, TaskStatus::Failed);
        assert!(settled.error.expect("error").contains("non-terminal"));
    }
    let settled = settle_result(result(TaskStatus::Completed, Some("done")), false);
    assert_eq!(settled.status, TaskStatus::Completed);
    assert_eq!(settled.error, None);
}

#[test]
fn persists_and_recovers_task_records() {
    let mut task = start_record(queued("test persistence"), now());
    task = apply(task, TaskExecutionEvent::Status { message: "running".to_string() });
    task = apply(task, TaskExecutionEvent::ThreadCreated { thread_id: "thr_test".to_string() });
    task = apply(
        task,
        TaskExecutionEvent::ThreadLinked {
            thread_id: "thr_test".to_string(),
            turn_id: "turn_test".to_string(),
        },
    );
    task = apply(
        task,
        TaskExecutionEvent::ToolStarted {
            id: "tool_1".to_string(),
            name: "read_file".to_string(),
            input: object(vec![("path", text("README.md"))]),
        },
    );
    assert_eq!(task.tool_calls[0].status, TaskToolStatus::Running);
    let mut updates = TaskUpdates::none();
    updates.checklist = Parsed::Value(TaskChecklistState {
        items: vec![TaskChecklistItem {
            id: 1,
            content: "read fixture".to_string(),
            status: "in_progress".to_string(),
        }],
        completion_pct: 0,
        in_progress_id: Some(1),
        updated_at: None,
    });
    task = apply_execution_event(
        task,
        TaskExecutionEvent::ToolCompleted {
            id: "tool_1".to_string(),
            name: "read_file".to_string(),
            success: true,
            output: "read ok".to_string(),
            metadata: None,
        },
        later(3),
        None,
        updates,
    )
    .expect("applied");
    let done = result(TaskStatus::Completed, Some("done"));
    let finished = finish_record(task, &done, "agent", &None, later(4));

    assert_eq!(finished.status, TaskStatus::Completed);
    assert_eq!(finished.thread_id.as_deref(), Some("thr_test"));
    assert_eq!(finished.turn_id.as_deref(), Some("turn_test"));
    assert!(finished.timeline.iter().any(|entry| {
        entry.kind == "runtime_thread" && entry.summary == "Linked runtime thread thr_test"
    }));
    assert_eq!(finished.checklist.items.len(), 1);
    assert_eq!(finished.checklist.in_progress_id, Some(1));
    assert_eq!(finished.tool_calls[0].status, TaskToolStatus::Success);
    assert_eq!(finished.tool_calls[0].output_summary.as_deref(), Some("read ok"));
    assert_eq!(finished.result_summary.as_deref(), Some("done"));
    assert_eq!(finished.duration_ms, Some(4_000));

    let id = finished.id.clone();
    let (loaded, changed) =
        recover_task(finished, &id, "tasks/it.json", later(9)).expect("read back");
    assert!(!changed);
    assert_eq!(loaded.status, TaskStatus::Completed);
    assert!(!loaded.timeline.is_empty());
    assert_eq!(loaded.checklist.items[0].content, "read fixture");
}

#[test]
fn large_outputs_go_into_files() {
    let big = "x".repeat(ARTIFACT_THRESHOLD + 1);
    assert!(needs_artifact(&big));
    assert!(!needs_artifact("small"));
    let event = TaskExecutionEvent::ToolCompleted {
        id: "tool_1".to_string(),
        name: "shell".to_string(),
        success: true,
        output: big,
        metadata: None,
    };
    assert!(event_artifact(&event).is_some());
    assert!(event_artifact(&TaskExecutionEvent::Status { message: "s".to_string() }).is_none());
}

#[test]
fn artifacts_are_named_after_their_label() {
    assert_eq!(sanitize_filename("a b/c.txt"), "a_b_c_txt");
    assert_eq!(
        artifact_filename(at("2026-07-09T09:08:07.123456789Z"), "tool result"),
        "20260709T090807.123Z_tool_result.txt"
    );
    assert_eq!(
        artifact_filename(at("2026-07-09T09:08:07.123456789Z"), "tool result"),
        artifact_filename_stamped(
            &chrono::DateTime::parse_from_rfc3339("2026-07-09T09:08:07.123456789Z")
                .expect("time")
                .with_timezone(&Utc)
                .format("%Y%m%dT%H%M%S%.3fZ")
                .to_string(),
            "tool result"
        )
    );
}

#[test]
fn artifact_references_are_absolute() {
    assert_eq!(artifact_absolute_path("/w", "/data", "/a/b.txt"), "/a/b.txt");
    assert_eq!(artifact_absolute_path("/w", "/data", "a/b.txt"), "/data/a/b.txt");
    assert_eq!(artifact_absolute_path("/w", "/data/", "b.txt"), "/data/b.txt");
    assert_eq!(artifact_absolute_path("/w", "tasks", "b.txt"), "/w/tasks/b.txt");
    let reference = artifact_reference("task_1", "b.txt").expect("safe");
    assert_eq!(reference, "artifacts/task_1/b.txt");
    assert_eq!(artifact_absolute_path("/w", "/data", &reference), "/data/artifacts/task_1/b.txt");
    let error = artifact_reference("../task_1", "b.txt").expect_err("unsafe");
    assert_eq!(error.message, "task id must be a single path component");
}

#[test]
fn legacy_task_without_auto_approve_deserializes_fail_closed() {
    let stored = |text: &str| {
        let value: serde_json::Value = serde_json::from_str(text).expect("json");
        value.get("auto_approve").and_then(serde_json::Value::as_bool)
    };
    let mut task = queued("legacy");
    task.auto_approve = approval_of(stored(r#"{"id": "task_legacy_policy", "trust_mode": false}"#));
    assert!(!task.auto_approve);
    assert!(!ExecutionTask::for_record(&task).auto_approve());
    assert!(!approval_of(stored(r#"{"auto_approve": false}"#)));
    assert!(approval_of(stored(r#"{"auto_approve": true}"#)));
}

#[test]
fn repeated_keys_return_their_task_whatever_is_asked() {
    let mut state = empty();
    let task = add(&mut state, prompt("first"), Some("key"));
    let mut strange = prompt("second");
    strange.mode = Some("warp".to_string());
    for req in [prompt("   "), strange, prompt("other")] {
        match state.plan_task(req, &config(), ".", Some("key".to_string()), now()) {
            Ok(AddPlan::Existing(id)) => assert_eq!(id, task.id),
            other => panic!("unexpected plan {other:?}"),
        }
    }
    assert_eq!(state.task_count(), 1);
    assert!(state.plan_task(prompt("   "), &config(), ".", Some("new".to_string()), now()).is_err());
}

#[test]
fn values_are_shown_in_short() {
    assert_eq!(summarize_text("  padded  ", 100), "  padded  ");
    assert_eq!(summarize_text("abcdefgh", 6), "abc...");
    let value = object(vec![("path", text("README.md"))]);
    assert_eq!(summarize_json(&value), "{\"path\":\"README.md\"}");
}

// Ending ---------------------------------------------------------------------
#[test]
fn cancel_running_task_marks_canceled() {
    let mut state = empty();
    let task = add(&mut state, prompt("test cancellation"), None);
    state.commit_start(start_record(task.clone(), now()));
    let (record, effect) = cancel_record(state.get(&task.id).expect("known").clone(), later(1));
    assert_eq!(effect, CancelEffect::Signal);
    assert_eq!(record.status, TaskStatus::Running);
    state.commit_cancel(record, effect);
    let settled = settle_result(result(TaskStatus::Completed, Some("late")), true);
    assert_eq!(settled.status, TaskStatus::Canceled);
    let done = finish_record(
        state.get(&task.id).expect("known").clone(),
        &settled,
        "agent",
        &None,
        later(2),
    );
    state.commit_finish(done);
    assert_eq!(state.get(&task.id).expect("known").status, TaskStatus::Canceled);
    assert!(state.running.is_empty());
}

#[test]
fn record_tool_metadata_updates_explicit_task() {
    let mut updates = TaskUpdates::none();
    updates.gate = Parsed::Value(gate("gate_test"));
    let updated = apply_task_updates(queued("test metadata"), updates, later(1)).expect("updated");
    assert_eq!(updated.gates.len(), 1);
    assert_eq!(updated.gates[0].classification, "passed");
}

#[test]
fn updates_are_picked_out_of_metadata() {
    let metadata = object(vec![(
        "task_updates",
        object(vec![
            ("gate", object(vec![("id", text("g"))])),
            ("artifacts", Json::Array(vec![text("a"), text("b")])),
        ]),
    )]);
    let parts = task_update_parts(Some(metadata));
    assert!(parts.gate.is_some());
    assert_eq!(parts.artifacts.len(), 2);
    assert!(parts.checklist.is_none());
    assert!(task_update_parts(None).gate.is_none());
}

#[test]
fn updates_are_noted_once() {
    let once = |updates: TaskUpdates, task: TaskRecord| {
        apply_task_updates(task, updates, later(1)).expect("updated")
    };
    let mut first = TaskUpdates::none();
    first.gate = Parsed::Value(gate("g"));
    let mut second = TaskUpdates::none();
    second.gate = Parsed::Value(gate("g"));
    let task = once(second, once(first, queued("x")));
    assert_eq!(task.gates.len(), 1);

    let mut bad = TaskUpdates::none();
    bad.gate = Parsed::Invalid;
    assert!(apply_task_updates(queued("x"), bad, later(1)).is_err());

    let mut more = TaskUpdates::none();
    more.attempt = Parsed::Value(TaskAttemptRecord {
        id: "a".to_string(),
        attempt_group_id: "g".to_string(),
        attempt_index: 1,
        attempt_count: 2,
        base_ref: None,
        base_sha: None,
        head_ref: None,
        head_sha: None,
        summary: "tried".to_string(),
        changed_files: Vec::new(),
        patch_path: None,
        verification: Vec::new(),
        selected: false,
        recorded_at: now(),
    });
    more.artifacts = vec![Parsed::Value(TaskArtifactRef {
        label: "log".to_string(),
        path: "artifacts/log.txt".to_string(),
        summary: "a log".to_string(),
        created_at: now(),
    })];
    more.github_event = Parsed::Value(TaskGithubEvent {
        id: "e".to_string(),
        action: "comment".to_string(),
        target: "issue".to_string(),
        number: 7,
        summary: "said so".to_string(),
        url: None,
        recorded_at: now(),
    });
    let task = once(more, queued("x"));
    assert_eq!((task.attempts.len(), task.artifacts.len(), task.github_events.len()), (1, 1, 1));
}

// Reading back ---------------------------------------------------------------
fn stale() -> TaskRecord {
    let started_at = Timestamp { secs: now().secs - 30, nanos: 0 };
    let mut task = queued("long-running shell work");
    task.schema_version = CURRENT_TASK_SCHEMA_VERSION;
    task.id = "task_stale_running".to_string();
    task.status = TaskStatus::Running;
    task.created_at = started_at;
    task.started_at = Some(started_at);
    task.thread_id = Some("thr_stale".to_string());
    task.turn_id = Some("turn_stale".to_string());
    task.tool_calls = vec![TaskToolCallSummary {
        id: "tool_shell".to_string(),
        name: "task_shell_start".to_string(),
        status: TaskToolStatus::Running,
        started_at,
        ended_at: None,
        duration_ms: None,
        input_summary: Some("shell: sleep 999".to_string()),
        output_summary: None,
        detail_path: None,
        patch_ref: None,
    }];
    task.timeline = vec![TaskTimelineEntry {
        timestamp: started_at,
        kind: "running".to_string(),
        summary: "Task started".to_string(),
        detail_path: None,
    }];
    task
}

#[test]
fn running_tasks_are_not_requeued_after_restart() {
    let (recovered, changed) =
        recover_task(stale(), "task_stale_running", "tasks/it.json", now()).expect("read back");
    assert!(changed);
    let queue = rebuild_queue(&vec![recovered.clone()], vec!["task_stale_running".to_string()]);

    assert!(queue.is_empty(), "stale running task must not be requeued");
    assert_eq!(recovered.status, TaskStatus::Failed);
    assert!(recovered.error.expect("error").contains("prior process is not attached"));
    assert_eq!(recovered.ended_at, Some(now()));
    assert_eq!(recovered.duration_ms, Some(30_000));
    assert_eq!(recovered.tool_calls[0].status, TaskToolStatus::Failed);
    assert!(recovered.tool_calls[0].ended_at.is_some());
    assert!(recovered.timeline.iter().any(|entry| entry.kind == "recovered"
        && entry.summary.contains("prior process is not attached")));
}

#[test]
fn rejects_newer_task_schema_on_recovery() {
    let mut task = queued("test schema gate");
    task.schema_version = 999;
    let id = task.id.clone();
    let error = recover_task(task, &id, "tasks/it.json", now()).expect_err("too new");
    assert!(error.message.contains("newer than supported"));
}

#[test]
fn persisted_task_mode_aliases_are_canonicalized() {
    for (canonical, alias) in [("agent", " 1 "), ("plan", " PlAn "), ("yolo", "3")] {
        let mut task = queued("load");
        task.mode = alias.to_string();
        let id = task.id.clone();
        let (loaded, changed) = recover_task(task, &id, "tasks/it.json", now()).expect("read back");
        assert_eq!(loaded.mode, canonical);
        assert!(changed);
    }
}

#[test]
fn invalid_mode_isolated_retaining_idempotency() {
    let mut state = empty();
    let healthy = add(&mut state, prompt("healthy task"), None);
    let mut invalid = add(&mut state, prompt("invalid mode task"), Some("invalid-mode-key"));
    invalid.mode = "observer".to_string();
    let id = invalid.id.clone();
    let (isolated, changed) = recover_task(invalid, &id, "tasks/it.json", now()).expect("read back");
    assert!(changed);
    assert_eq!(isolated.status, TaskStatus::Failed);
    assert_eq!(isolated.mode, "agent");
    assert_eq!(isolated.idempotency_key.as_deref(), Some("invalid-mode-key"));
    assert!(isolated
        .error
        .as_deref()
        .expect("error")
        .contains("Invalid persisted task mode 'observer'"));

    let stored = vec![id.clone(), healthy.id.clone()];
    let mut reopened = ManagerState::open(vec![healthy.clone(), isolated], stored).expect("reopened");
    assert_eq!(reopened.queue, vec![healthy.id]);
    let repeated =
        add(&mut reopened, prompt("must reuse isolated task"), Some("invalid-mode-key"));
    assert_eq!(repeated.id, id);
}

#[test]
fn load_state_rejects_unsafe_mismatched_and_duplicate_task_ids() {
    let mut task = queued("identity seed");
    let stem = task.id.clone();
    task.id = "../escape".to_string();
    let error = recover_task(task, &stem, "tasks/it.json", now()).expect_err("unsafe");
    assert!(error.message.contains("Invalid task identity"));

    let mut task = queued("identity seed");
    let stem = task.id.clone();
    task.id = "different-safe-id".to_string();
    let error = recover_task(task, &stem, "tasks/it.json", now()).expect_err("mismatch");
    assert!(error.message.contains("does not match persisted task id"));

    let task = queued("identity seed");
    let mut loaded = Vec::new();
    insert_loaded_task(&mut loaded, task.clone(), "tasks/it.json").expect("first");
    assert!(knows_task(&loaded, &task.id));
    let error = insert_loaded_task(&mut loaded, task, "tasks/it.json").expect_err("second");
    assert!(error.message.contains("Duplicate persisted task id"));
}

#[test]
fn two_tasks_under_one_key_are_refused() {
    let mut first = queued("one");
    first.idempotency_key = Some("key".to_string());
    let mut second = queued("two");
    second.idempotency_key = Some("key".to_string());
    let error = ManagerState::open(vec![first, second], Vec::new()).expect_err("one key, two tasks");
    assert!(error.message.contains("key"));
}

#[test]
fn queues_keep_their_order() {
    let task = |id: &str| {
        let mut task = queued("x");
        task.id = id.to_string();
        task
    };
    let tasks = vec![task("a"), task("b"), task("c")];
    let stored = vec!["c".to_string(), "gone".to_string(), "b".to_string()];
    let queue = rebuild_queue(&tasks, stored);
    assert_eq!(queue, vec!["c", "b", "a"]);
    assert_eq!(sort_ids(vec!["b".to_string(), "a".to_string()]), vec!["a", "b"]);
}

#[test]
fn write_task_artifact_rejects_traversal_task_id() {
    let err = ensure_safe_storage_id("task id", "../escape").expect_err("must be rejected");
    assert!(err.message.contains("single path component"));
}

// Public types ---------------------------------------------------------------
#[test]
fn downstream_executor_can_compile_against_the_public_contract() {
    let task = ExecutionTask::for_record(&queued("contract"));
    let _: &str = task.id();
    let _: &str = task.prompt();
    let _: &str = task.model();
    let _: &str = task.workspace();
    let _: &str = task.mode_label();
    let _: bool = task.allow_shell();
    let _: bool = task.trust_mode();
    let _: bool = task.auto_approve();
    let event = TaskExecutionEvent::ThreadCreated { thread_id: "sched-contract".to_string() };
    assert!(matches!(event, TaskExecutionEvent::ThreadCreated { .. }));
    let rejected = TaskExecutionReportError::Rejected("disk full".to_string());
    let failed = TaskExecutionResult::reporting_failed(&rejected, "partial");
    assert_eq!(failed.status, TaskStatus::Failed);
    assert_eq!(failed.result_text.as_deref(), Some("partial"));
    assert!(failed.error.expect("error").contains("disk full"));
    let executor = EngineTaskExecutor::new("runtime");
    assert_eq!(executor.runtime_threads, "runtime");
}

#[test]
fn executions_follow_their_record() {
    let mut record = queued("do it");
    record.mode = "yolo".to_string();
    record.allow_shell = true;
    let task = ExecutionTask::for_record(&record);
    assert_eq!((task.id(), task.prompt()), (record.id.as_str(), "do it"));
    assert_eq!((task.mode_label(), task.allow_shell()), ("yolo", true));
    assert_eq!((task.model(), task.workspace()), ("deepseek-v4-flash", "."));
}

#[test]
fn statuses_end_for_good() {
    assert!(TaskStatus::Completed.is_terminal());
    assert!(TaskStatus::Failed.is_terminal());
    assert!(TaskStatus::Canceled.is_terminal());
    assert!(!TaskStatus::Queued.is_terminal());
    assert!(!TaskStatus::Running.is_terminal());
}

#[test]
fn managers_are_set_up_from_the_runtime() {
    let settings = RuntimeSettings {
        default_text_model: None,
        fallback_model: "fallback".to_string(),
        allow_shell: true,
        provider_subagents: 3,
        max_subagents: 5,
    };
    let made = TaskManagerConfig::from_runtime(
        &settings,
        "data".to_string(),
        "work".to_string(),
        None,
        Some(99),
    );
    assert_eq!(made.data_dir, "data");
    assert_eq!(made.default_workspace, "work");
    assert_eq!(made.default_model, "fallback");
    assert!(made.workers() <= 8);
    let none = TaskManagerConfig::from_runtime(
        &settings,
        "data".to_string(),
        "work".to_string(),
        Some("named".to_string()),
        None,
    );
    assert_eq!(none.default_model, "named");
    assert_eq!(none.workers(), 2);
}
