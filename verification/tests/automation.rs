//! Automations, their runs, the index of runs and the journal.
use chrono::{DateTime, Utc};
use codewhale::automation::{
    admit_automation, advance_last_run_at, create_automation, create_automation_with,
    normalize_optional_mode, normalize_optional_string, normalize_persisted_mode, pause_request,
    resume_request, sort_automations, update_automation, update_automation_with,
    validate_automation_record, validate_name_and_prompt, AutomationRecord, AutomationRunRecord,
    AutomationRunStatus, AutomationStatus, CreateAutomationRequest, UpdateAutomationRequest,
    CURRENT_AUTOMATION_SCHEMA_VERSION, CURRENT_RUN_SCHEMA_VERSION,
};
use codewhale::automation_listing::{admit_stored, list_automations, StoredAutomation};
use codewhale::locations::{
    default_automations_dir, default_tasks_dir, default_tasks_dir_for_home, Place, DATA_DIR,
    LEGACY_DATA_DIR,
};
use codewhale::pending::{
    sort_pending, validate_pending_enqueue_record, validate_run_record, PendingEnqueueKind,
    PendingEnqueueRecord,
};
use codewhale::protection::{protected_task_ids, JournalScan};
use codewhale::storage_id::ensure_safe_storage_id;
use codewhale::time::{LocalTime, Timestamp};
use std::path::{Path, PathBuf};

const ID: &str = "67e55044-10b1-426f-9247-bb680e5fe0c8";

fn at(text: &str) -> Timestamp {
    let t = DateTime::parse_from_rfc3339(text).expect("time").with_timezone(&Utc);
    Timestamp { secs: t.timestamp(), nanos: t.timestamp_subsec_nanos() }
}

fn seconds(t: Timestamp, n: i64) -> Timestamp {
    Timestamp { secs: t.secs + n, nanos: t.nanos }
}

fn no_offset(_t: Timestamp) -> i32 {
    0
}

fn single(reading: i64) -> LocalTime {
    LocalTime::Single(Timestamp { secs: reading, nanos: 0 })
}

fn automation(mode: Option<&str>) -> AutomationRecord {
    let now = at("2026-07-09T09:00:00Z");
    AutomationRecord {
        schema_version: CURRENT_AUTOMATION_SCHEMA_VERSION,
        id: ID.to_string(),
        name: "Test automation".to_string(),
        prompt: "Run the automation".to_string(),
        rrule: "FREQ=HOURLY;INTERVAL=1".to_string(),
        cwds: Vec::new(),
        model: None,
        mode: mode.map(ToString::to_string),
        allow_shell: None,
        trust_mode: None,
        auto_approve: None,
        status: AutomationStatus::Active,
        created_at: now,
        updated_at: now,
        next_run_at: None,
        last_run_at: None,
    }
}

fn request() -> CreateAutomationRequest {
    CreateAutomationRequest {
        name: "Delete me".to_string(),
        prompt: "prompt".to_string(),
        rrule: "FREQ=HOURLY;INTERVAL=1".to_string(),
        cwds: Vec::new(),
        model: None,
        mode: None,
        allow_shell: None,
        trust_mode: None,
        auto_approve: None,
        status: Some(AutomationStatus::Active),
    }
}

fn no_change() -> UpdateAutomationRequest {
    UpdateAutomationRequest {
        name: None,
        prompt: None,
        rrule: None,
        cwds: None,
        model: None,
        mode: None,
        allow_shell: None,
        trust_mode: None,
        auto_approve: None,
        status: None,
    }
}

fn terminal_run(id: &str, created_at: Timestamp) -> AutomationRunRecord {
    AutomationRunRecord {
        schema_version: CURRENT_RUN_SCHEMA_VERSION,
        id: id.to_string(),
        automation_id: ID.to_string(),
        scheduled_for: created_at,
        status: AutomationRunStatus::Completed,
        created_at,
        started_at: Some(created_at),
        ended_at: Some(created_at),
        task_id: None,
        thread_id: None,
        turn_id: None,
        error: None,
    }
}

// Records --------------------------------------------------------------------
#[test]
fn automation_storage_rejects_traversal_ids() {
    for id in ["../escape", "../escape-runs", "../escape-run"] {
        let err = ensure_safe_storage_id("automation id", id).expect_err("must be rejected");
        assert!(err.message.contains("single path component"));
    }
    let run = terminal_run("../escape-run", at("2026-07-09T09:00:00Z"));
    let err = validate_run_record(&run, ID, &run.id).expect_err("must be rejected");
    assert!(err.message.contains("single path component"));
}

#[test]
fn only_plain_names_are_file_names() {
    let fault = |id: &str| ensure_safe_storage_id("run id", id).err().map(|e| e.message);
    assert_eq!(fault("run-1"), None);
    assert_eq!(fault("..."), None);
    assert_eq!(fault(""), Some("run id must not be empty".to_string()));
    for id in [".", "..", "/", "/a", "a/b", "a/..", "./a"] {
        assert_eq!(fault(id), Some("run id must be a single path component".to_string()), "{id}");
    }
}

#[test]
fn automation_task_settings_default_for_legacy_records() {
    let record = automation(None);
    assert_eq!(record.mode, None);
    assert_eq!(record.model, None);
    assert_eq!(record.task_mode(), "agent");
    assert!(!record.task_allow_shell());
    assert!(!record.task_trust_mode());
    assert!(!record.task_auto_approve());
}

fn stored(file_stem: &str, record: AutomationRecord) -> StoredAutomation {
    StoredAutomation::Read { file_stem: file_stem.to_string(), record }
}

#[test]
fn legacy_modes_are_normalized_without_poisoning_the_list() {
    let aliases = [
        ("67e55044-10b1-426f-9247-bb680e5fe0c1", " Agent ", "agent"),
        ("67e55044-10b1-426f-9247-bb680e5fe0c2", "2", "plan"),
        ("67e55044-10b1-426f-9247-bb680e5fe0c3", "3", "yolo"),
    ];
    let mut files = Vec::new();
    for (id, mode, _) in aliases {
        let mut record = automation(Some(mode));
        record.id = id.to_string();
        files.push(stored(id, record));
    }
    let unknown = automation(Some("legacy-custom"));
    validate_automation_record(&unknown, ID).expect_err("only canonical modes are stored");
    files.push(stored(ID, unknown.clone()));

    let admitted = admit_stored(files);
    assert_eq!(admitted.len(), aliases.len());
    for (file, (id, _, canonical)) in admitted.iter().zip(aliases) {
        assert_eq!(file.file_stem, id);
        assert_eq!(file.record.mode.as_deref(), Some(canonical));
        assert!(file.changed, "the record is stored again");
    }
    let again: Vec<StoredAutomation> =
        admitted.iter().map(|file| stored(&file.file_stem, file.record.clone())).collect();
    let listed = list_automations(admitted);
    assert_eq!(listed.len(), aliases.len());
    for record in listed {
        let known = aliases.iter().find(|(id, _, _)| *id == record.id).expect("known record");
        assert_eq!(record.mode.as_deref(), Some(known.2));
    }
    assert!(admit_stored(again).iter().all(|file| !file.changed));

    let error = admit_automation(unknown).expect_err("an unknown mode is told");
    assert!(error.message.contains("Invalid automation mode"));
}

#[test]
fn invalid_automation_is_isolated_from_valid_records() {
    let record = automation(None);
    let listed = list_automations(admit_stored(vec![
        StoredAutomation::Unreadable,
        stored(ID, record.clone()),
        StoredAutomation::Unreadable,
    ]));
    assert_eq!(listed.len(), 1);
    assert_eq!(listed[0].id, record.id);
}

#[test]
fn changed_automations_are_listed_first() {
    let mut early = automation(None);
    early.id = "67e55044-10b1-426f-9247-bb680e5fe0c1".to_string();
    let mut late = automation(None);
    late.updated_at = at("2026-07-10T09:00:00Z");
    let listed =
        list_automations(admit_stored(vec![stored(&early.id.clone(), early), stored(ID, late)]));
    let ids: Vec<String> = listed.into_iter().map(|record| record.id).collect();
    assert_eq!(ids, [ID, "67e55044-10b1-426f-9247-bb680e5fe0c1"]);
}

#[test]
fn newer_records_are_refused() {
    let mut record = automation(None);
    record.schema_version = CURRENT_AUTOMATION_SCHEMA_VERSION + 1;
    let error = admit_automation(record).expect_err("too new");
    assert!(error.message.contains("newer than supported"), "{}", error.message);
}

#[test]
fn names_and_prompts_are_not_blank() {
    assert!(validate_name_and_prompt("a", "b").is_ok());
    assert!(validate_name_and_prompt(" \t", "b").is_err());
    assert!(validate_name_and_prompt("a", "\n").is_err());
}

#[test]
fn optional_texts_are_trimmed() {
    assert_eq!(normalize_optional_string(Some("  x ".to_string())).as_deref(), Some("x"));
    assert_eq!(normalize_optional_string(Some("  ".to_string())), None);
    assert_eq!(normalize_optional_string(None), None);
    assert_eq!(
        normalize_optional_mode(Some("plan".to_string())).expect("known").as_deref(),
        Some("plan")
    );
    assert!(normalize_optional_mode(Some("warp".to_string())).is_err());
}

#[test]
fn stored_modes_are_canonical_once() {
    let mut record = automation(Some("YOLO"));
    assert!(normalize_persisted_mode(&mut record).expect("known"));
    assert_eq!(record.mode.as_deref(), Some("yolo"));
    assert!(!normalize_persisted_mode(&mut record).expect("known"));
}

// Changes --------------------------------------------------------------------
#[test]
fn created_automations_are_tidied() {
    let now = at("2026-07-09T09:17:30Z");
    let mut req = request();
    req.name = "  Nightly ".to_string();
    req.rrule = " freq=hourly;interval=2 ".to_string();
    req.model = Some("  ".to_string());
    let record =
        create_automation_with(req, now, ID.to_string(), &no_offset, &single).expect("create");
    assert_eq!(record.id, ID);
    assert_eq!(record.name, "Nightly");
    assert_eq!(record.rrule, "FREQ=HOURLY;INTERVAL=2");
    assert_eq!(record.model, None);
    assert_eq!(record.next_run_at, Some(at("2026-07-09T11:17:00Z")));
    assert_eq!((record.created_at, record.updated_at), (now, now));
    validate_automation_record(&record, ID).expect("valid");
}

#[test]
fn created_automations_have_fresh_identifiers() {
    let first = create_automation(request()).expect("create");
    let second = create_automation(request()).expect("create");
    assert_ne!(first.id, second.id);
    assert_eq!(first.id.len(), 36);
    validate_automation_record(&first, &first.id).expect("valid");
    assert!(first.next_run_at.expect("cursor") > first.created_at);
}

#[test]
fn paused_automations_have_no_cursor() {
    let now = at("2026-07-09T09:17:30Z");
    let mut req = request();
    req.status = Some(AutomationStatus::Paused);
    let record =
        create_automation_with(req, now, ID.to_string(), &no_offset, &single).expect("create");
    assert_eq!(record.next_run_at, None);

    let later = at("2026-07-09T10:00:00Z");
    let resumed =
        update_automation_with(record, resume_request(), later, &no_offset, &single).expect("resume");
    assert_eq!(resumed.status, AutomationStatus::Active);
    assert_eq!(resumed.next_run_at, Some(at("2026-07-09T11:00:00Z")));
    assert_eq!(resumed.updated_at, later);

    let paused =
        update_automation_with(resumed, pause_request(), later, &no_offset, &single).expect("pause");
    assert_eq!(paused.status, AutomationStatus::Paused);
    assert_eq!(paused.next_run_at, None);
}

#[test]
fn refused_requests_are_told() {
    let mut req = request();
    req.mode = Some("warp".to_string());
    let error = create_automation(req).expect_err("no such mode");
    assert!(error.message.contains("Invalid automation mode"));
    let mut change = no_change();
    change.rrule = Some("FREQ=DAILY".to_string());
    let error = update_automation(automation(None), change).expect_err("no such rule");
    assert!(error.message.contains("Unsupported RRULE FREQ"));
    let mut change = no_change();
    change.name = Some("  ".to_string());
    assert!(update_automation(automation(None), change).is_err());
}

#[test]
fn updates_change_what_they_name() {
    let now = at("2026-07-09T10:00:00Z");
    let mut change = no_change();
    change.name = Some(" New name ".to_string());
    change.rrule = Some("freq=minutely;interval=5".to_string());
    change.model = Some("m".to_string());
    let record =
        update_automation_with(automation(None), change, now, &no_offset, &single).expect("update");
    assert_eq!(record.name, "New name");
    assert_eq!(record.prompt, "Run the automation");
    assert_eq!(record.rrule, "FREQ=MINUTELY;INTERVAL=5");
    assert_eq!(record.model.as_deref(), Some("m"));
    assert_eq!(record.next_run_at, Some(at("2026-07-09T10:05:00Z")));
    assert_eq!(record.updated_at, now);
}

#[test]
fn automations_are_listed_latest_first() {
    let mut first = automation(None);
    first.id = "first".to_string();
    let mut second = automation(None);
    second.id = "second".to_string();
    second.updated_at = seconds(first.updated_at, 1);
    let listed: Vec<String> =
        sort_automations(vec![first, second]).into_iter().map(|record| record.id).collect();
    assert_eq!(listed, vec!["second", "first"]);
}

#[test]
fn last_runs_only_advance() {
    let mut record = automation(None);
    let t = at("2026-07-09T10:00:00Z");
    advance_last_run_at(&mut record, None);
    assert_eq!(record.last_run_at, None);
    advance_last_run_at(&mut record, Some(t));
    advance_last_run_at(&mut record, Some(seconds(t, -1)));
    assert_eq!(record.last_run_at, Some(t));
    advance_last_run_at(&mut record, Some(seconds(t, 1)));
    assert_eq!(record.last_run_at, Some(seconds(t, 1)));
}

// The journal ----------------------------------------------------------------
#[test]
fn slots_have_their_own_records() {
    let slot = at("2026-07-09T09:27:00Z");
    let now = at("2026-07-09T09:27:59.900Z");
    let record = PendingEnqueueRecord::for_slot("a", slot, now);
    let micros = slot.secs * 1_000_000;
    assert_eq!(record.run.id, format!("slot_{micros}"));
    assert_eq!(record.slot_key, format!("automation:a:slot:{micros}"));
    assert_eq!(record.run.created_at, now);
    validate_pending_enqueue_record(&record, "a", &record.run.id).expect("valid");
}

#[test]
fn invocations_have_their_own_records() {
    let now = at("2026-07-09T09:27:59.900Z");
    let record = PendingEnqueueRecord::for_manual("a", &ID.to_uppercase(), now).expect("record");
    assert_eq!(record.kind, PendingEnqueueKind::Manual);
    assert_eq!(record.run.id, format!("manual_{ID}"));
    assert_eq!(record.slot_key, format!("automation:a:manual:{ID}"));
    validate_pending_enqueue_record(&record, "a", &record.run.id).expect("valid");
}

#[test]
fn journal_records_belong_to_their_files() {
    let slot = at("2026-07-09T09:27:00Z");
    let good = || PendingEnqueueRecord::for_slot("a", slot, slot);
    let id = good().run.id;
    let refused = |record: &PendingEnqueueRecord, owner: &str, stem: &str| {
        validate_pending_enqueue_record(record, owner, stem).is_err()
    };
    assert!(!refused(&good(), "a", &id));
    assert!(refused(&good(), "b", &id));
    assert!(refused(&good(), "a", "slot_1"));
    let mut record = good();
    record.schema_version = 2;
    assert!(refused(&record, "a", &id));
    let mut record = good();
    record.kind = PendingEnqueueKind::Manual;
    assert!(refused(&record, "a", &id));
    let mut record = good();
    record.slot_key = "automation:wrong:slot:0".to_string();
    assert!(refused(&record, "a", &id));
}

#[test]
fn journals_are_read_in_order() {
    let slot = at("2026-07-09T09:27:00Z");
    let early = PendingEnqueueRecord::for_slot("a", slot, slot);
    let late = PendingEnqueueRecord::for_slot("a", seconds(slot, 60), seconds(slot, 60));
    let sorted = sort_pending(vec![late, early]);
    assert_eq!(sorted[0].run.scheduled_for, slot);
}

#[test]
fn protected_task_ids_cover_retained_runs_and_pending_journals() {
    let now = at("2026-07-09T09:27:00Z");
    let mut retained = terminal_run("retained-run", now);
    retained.task_id = Some("retained-task".to_string());
    let mut pending = PendingEnqueueRecord::for_slot(ID, seconds(now, -60), now);
    pending.run.task_id = Some("pending-task".to_string());
    let scans = vec![JournalScan { automation_id: ID.to_string(), records: vec![pending], blocked: false }];
    let mut again = terminal_run("again", now);
    again.task_id = Some("retained-task".to_string());
    let protected =
        protected_task_ids(&scans, &vec![retained, again, terminal_run("none", now)]).expect("ids");
    assert!(protected.contains(&"retained-task".to_string()));
    assert!(protected.contains(&"pending-task".to_string()));
    assert_eq!(protected.len(), 2);
}

#[test]
fn invalid_pending_journal_blocks_all_task_pruning() {
    let scans = vec![
        JournalScan { automation_id: "fine".to_string(), records: Vec::new(), blocked: false },
        JournalScan { automation_id: "corrupt".to_string(), records: Vec::new(), blocked: true },
    ];
    let error = protected_task_ids(&scans, &Vec::new()).expect_err("must fail closed");
    assert_eq!(
        error.message,
        "Task pruning blocked by invalid pending enqueue records for automation 'corrupt'"
    );
}

// Places ---------------------------------------------------------------------
fn found(home: &Path, place: Place, store: &str) -> PathBuf {
    match place {
        Place::Given(path) => PathBuf::from(path),
        Place::InBase => home.join(store),
        Place::Primary => home.join(DATA_DIR).join(store),
        Place::Legacy => home.join(LEGACY_DATA_DIR).join(store),
        Place::Relative => PathBuf::from(DATA_DIR).join(store),
    }
}

#[test]
fn default_automations_dir_honors_codewhale_home_as_hard_override() {
    let base = Path::new("/base");
    let place = default_automations_dir(None, true, true, false, true);
    assert_eq!(found(base, place, "automations"), base.join("automations"));
}

#[test]
fn default_automations_dir_prefers_deepseek_automations_dir_over_codewhale_home() {
    let place = default_automations_dir(Some(" /named "), true, true, true, true);
    assert_eq!(found(Path::new("/should/not/be/used"), place, "automations"), Path::new("/named"));
    assert!(matches!(default_automations_dir(Some("  "), false, true, false, true), Place::Legacy));
    assert!(matches!(default_automations_dir(None, false, true, true, true), Place::Primary));
    assert!(matches!(default_automations_dir(None, false, false, false, false), Place::Relative));
}

#[test]
fn default_tasks_dir_falls_back_to_legacy_deepseek_tasks() {
    let home = Path::new("/home/user");
    let place = default_tasks_dir_for_home(false, true);
    assert_eq!(found(home, place, "tasks"), home.join(".deepseek").join("tasks"));
}

#[test]
fn default_tasks_dir_prefers_existing_codewhale_tasks() {
    let home = Path::new("/home/user");
    let place = default_tasks_dir_for_home(true, true);
    assert_eq!(found(home, place, "tasks"), home.join(".codewhale").join("tasks"));
}

#[test]
fn default_tasks_dir_falls_back_to_legacy_when_primary_is_file() {
    // A file in the place of the directory is no directory.
    assert!(matches!(default_tasks_dir_for_home(false, true), Place::Legacy));
}

#[test]
fn default_tasks_dir_ignores_legacy_file_for_new_installs() {
    assert!(matches!(default_tasks_dir_for_home(false, false), Place::Primary));
}

#[test]
fn default_tasks_dir_uses_codewhale_tasks_for_new_installs() {
    let home = Path::new("/home/user");
    let place = default_tasks_dir_for_home(false, false);
    assert_eq!(found(home, place, "tasks"), home.join(".codewhale").join("tasks"));
}

#[test]
fn named_task_directories_are_taken_as_written() {
    assert!(matches!(
        default_tasks_dir(Some(" /named "), true, true, true),
        Place::Given(path) if path == " /named "
    ));
    assert!(matches!(default_tasks_dir(Some(" "), true, false, true), Place::Legacy));
    assert!(matches!(default_tasks_dir(None, false, false, true), Place::Relative));
}
