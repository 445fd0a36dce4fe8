//! Runs with their index, kept in memory.
use std::collections::BTreeMap;

use chrono::{DateTime, Utc};
use codewhale::automation::{
    AutomationRunRecord, AutomationRunStatus, CURRENT_RUN_SCHEMA_VERSION,
};
use codewhale::pending::{read_journal, JournalFile, PendingEnqueueRecord};
use codewhale::protection::order_owners;
use codewhale::reconcile::{reconcile_runs, task_to_look_up, ObservedRun, TaskProgress};
use codewhale::retention::{GuardAnswer, Retention, RetentionAction, RetentionEvent};
use codewhale::run_index::{
    accept_run_index, build_index, index_to_use, listed_runs, take_listed_run, thin_index,
    validate_run_index, without, AutomationRunIndex, AutomationRunIndexEntry, IndexedRun, PendingScan,
    RunAuthorityGeneration, DEFAULT_MAX_UNPROTECTED_TERMINAL_RUNS,
};
use codewhale::run_reading::{ReadingAction, ReadingEvent, RunQuery, RunReading};
use codewhale::run_save::{RunSave, RunSaveAction, RunSaveEvent, RunSaveStage};
use codewhale::task::TaskStatus;
use codewhale::time::Timestamp;

const ID: &str = "67e55044-10b1-426f-9247-bb680e5fe0c8";

fn at(text: &str) -> Timestamp {
    let t = DateTime::parse_from_rfc3339(text).expect("time").with_timezone(&Utc);
    Timestamp { secs: t.timestamp(), nanos: t.timestamp_subsec_nanos() }
}

fn seconds(t: Timestamp, n: i64) -> Timestamp {
    Timestamp { secs: t.secs + n, nanos: t.nanos }
}

fn terminal_run(id: &str, created_at: Timestamp) -> AutomationRunRecord {
    AutomationRunRecord {
        schema_version: CURRENT_RUN_SCHEMA_VERSION,
        id: id.to_string(),
        automation_id: ID.to_string(),
        scheduled_for: created_at,
        status: AutomationRunStatus::Completed,
        created_at,
        started_at: Some(created_at),
        ended_at: Some(created_at),
        task_id: None,
        thread_id: None,
        turn_id: None,
        error: None,
    }
}

fn queued_run(id: &str, created_at: Timestamp) -> AutomationRunRecord {
    let mut run = terminal_run(id, created_at);
    run.status = AutomationRunStatus::Queued;
    run.started_at = None;
    run.ended_at = None;
    run
}

fn copy(index: &AutomationRunIndex) -> AutomationRunIndex {
    AutomationRunIndex {
        schema_version: index.schema_version,
        automation_id: index.automation_id.clone(),
        entries: index
            .entries
            .iter()
            .map(|run| IndexedRun { id: run.id.clone(), entry: run.entry })
            .collect(),
        authority_generation: index.authority_generation,
        latest_terminal_at: index.latest_terminal_at,
    }
}

/// A host that wants to keep one run.
struct Guard {
    protected: &'static str,
    fail: bool,
}

/// The files of one automation's runs.
struct Shelf {
    /// The records; nothing stands for a file that cannot be read.
    files: BTreeMap<String, Option<AutomationRunRecord>>,
    generation: RunAuthorityGeneration,
    index: Option<AutomationRunIndex>,
    dirty: bool,
    marker_fails: bool,
    index_fails: bool,
    journal: Vec<Option<PendingEnqueueRecord>>,
    max: usize,
    guard: Option<Guard>,
    reads: usize,
}

impl Shelf {
    fn new() -> Self {
        Shelf {
            files: BTreeMap::new(),
            generation: RunAuthorityGeneration::default(),
            index: None,
            dirty: false,
            marker_fails: false,
            index_fails: false,
            journal: Vec::new(),
            max: DEFAULT_MAX_UNPROTECTED_TERMINAL_RUNS,
            guard: None,
            reads: 0,
        }
    }

    /// A record that comes into the directory from elsewhere.
    fn put(&mut self, run: &AutomationRunRecord) {
        self.files.insert(run.id.clone(), Some(run.clone()));
        self.generation.modified_secs += 1;
    }

    /// A file that is overwritten in its place: the directory does not change.
    fn overwrite(&mut self, id: &str, content: Option<AutomationRunRecord>) {
        self.files.insert(id.to_string(), content);
    }

    fn remove(&mut self, id: &str) {
        self.files.remove(id);
        self.generation.modified_secs += 1;
    }

    fn load_run(&mut self, id: &str) -> Result<Option<AutomationRunRecord>, String> {
        match self.files.get(id) {
            None => Ok(None),
            Some(content) => {
                self.reads += 1;
                content.clone().map(Some).ok_or_else(|| format!("Failed to parse {id}"))
            }
        }
    }

    fn mark(&mut self) -> Result<(), String> {
        if self.marker_fails {
            return Err("no room for the marker".to_string());
        }
        self.dirty = true;
        Ok(())
    }

    fn persist_index(&mut self, index: &AutomationRunIndex) {
        if !self.index_fails {
            let mut stored = copy(index);
            stored.authority_generation = self.generation;
            self.index = Some(stored);
            self.dirty = false;
        }
    }

    fn load_index(&mut self) -> Result<AutomationRunIndex, String> {
        let stored = self.index.as_ref().map(copy);
        match index_to_use(self.dirty, stored, ID, self.generation) {
            Some(index) => Ok(index),
            None => self.rebuild(),
        }
    }

    fn rebuild(&mut self) -> Result<AutomationRunIndex, String> {
        self.mark()?;
        let mut runs = Vec::new();
        let ids: Vec<String> = self.files.keys().cloned().collect();
        for id in ids {
            runs.extend(self.load_run(&id)?);
        }
        let index = build_index(ID, &runs);
        let gone = self.retain(&index, Some(&runs));
        let index = thin_index(index, &gone);
        self.persist_index(&index);
        Ok(index)
    }

    fn scan(&self) -> PendingScan {
        let files = self
            .journal
            .iter()
            .map(|found| match found {
                None => JournalFile::Unreadable,
                Some(record) => JournalFile::Read {
                    file_stem: record.run.id.clone(),
                    record: record.clone(),
                },
            })
            .collect();
        match read_journal(ID, files) {
            (_, true) => PendingScan::Blocked,
            (records, false) => PendingScan::Runs(records.into_iter().map(|r| r.run.id).collect()),
        }
    }

    fn ask(&mut self, id: &str, known: Option<&Vec<AutomationRunRecord>>) -> GuardAnswer {
        let found = known.and_then(|runs| runs.iter().find(|run| run.id == id)).cloned();
        let run = match found.map_or_else(|| self.load_run(id), |run| Ok(Some(run))) {
            Ok(Some(run)) => run,
            _ => return GuardAnswer::Unknown,
        };
        match &self.guard {
            Some(guard) if guard.fail => GuardAnswer::Unknown,
            Some(guard) if guard.protected == run.id => GuardAnswer::Keep,
            _ => GuardAnswer::Release,
        }
    }

    fn retain(
        &mut self,
        index: &AutomationRunIndex,
        known: Option<&Vec<AutomationRunRecord>>,
    ) -> Vec<String> {
        let mut course = Retention::new(index, self.max, self.guard.is_some());
        let mut action = course.step(RetentionEvent::Begun);
        loop {
            let event = match action {
                RetentionAction::Scan => RetentionEvent::Scanned(self.scan()),
                RetentionAction::Ask { run_id } => RetentionEvent::Answered(self.ask(&run_id, known)),
                RetentionAction::Remove { run_id } => {
                    self.remove(&run_id);
                    RetentionEvent::Removed { gone: true }
                }
                RetentionAction::Finish { gone } => return gone,
            };
            action = course.step(event);
        }
    }

    fn save(&mut self, run: &AutomationRunRecord) -> Result<(), String> {
        let mut course = RunSave::new(run.clone());
        let mut action = course.step(RunSaveEvent::Begun);
        loop {
            let event = match action {
                RunSaveAction::LoadIndex => RunSaveEvent::IndexLoaded(self.load_index().ok()),
                RunSaveAction::MarkDirty => RunSaveEvent::Marked(self.mark()),
                RunSaveAction::WriteRun => {
                    self.put(&course.run);
                    RunSaveEvent::Written(Ok(()))
                }
                RunSaveAction::Retain => RunSaveEvent::Retained {
                    removed: match &course.stage {
                        RunSaveStage::Retaining { index } => self.retain(index, None),
                        stage => panic!("unexpected stage {stage:?}"),
                    },
                },
                RunSaveAction::SaveIndex => {
                    match &course.stage {
                        RunSaveStage::SavingIndex { index } => self.persist_index(index),
                        stage => panic!("unexpected stage {stage:?}"),
                    }
                    RunSaveEvent::IndexSaved
                }
                RunSaveAction::RebuildIndex => {
                    let _ = self.rebuild();
                    RunSaveEvent::Rebuilt
                }
                RunSaveAction::Finish => return Ok(()),
                RunSaveAction::Fail(failure) => return Err(failure.message),
            };
            action = course.step(event);
        }
    }

    fn read(
        &mut self,
        query: RunQuery,
    ) -> Result<(Vec<AutomationRunRecord>, Option<Timestamp>), String> {
        let mut course = RunReading::new(ID.to_string(), query);
        let mut action = course.step(ReadingEvent::Begun);
        loop {
            let event = match action {
                ReadingAction::LoadIndex => ReadingEvent::IndexLoaded(self.load_index()),
                ReadingAction::LoadRun { run_id } => ReadingEvent::RunLoaded(self.load_run(&run_id)),
                ReadingAction::MarkDirty => {
                    let _ = self.mark();
                    ReadingEvent::Marked
                }
                ReadingAction::RebuildIndex => ReadingEvent::IndexRebuilt(self.rebuild()),
                ReadingAction::Finish { runs, latest } => return Ok((runs, latest)),
                ReadingAction::Fail(failure) => return Err(failure.message),
            };
            action = course.step(event);
        }
    }

    fn list(&mut self, limit: Option<usize>) -> Vec<String> {
        let (runs, _) = self.read(RunQuery::Listing { limit }).expect("a listing");
        runs.into_iter().map(|run| run.id).collect()
    }
}

fn thousand_and_one(base: Timestamp) -> Shelf {
    let mut shelf = Shelf::new();
    for index in 0..=1_000 {
        shelf.put(&terminal_run(&format!("terminal-{index:04}"), seconds(base, index)));
    }
    shelf
}

// Listing --------------------------------------------------------------------
#[test]
fn equal_timestamp_listing_uses_run_id_as_stable_tiebreaker() {
    let created_at = at("2026-07-09T09:27:00Z");
    let mut shelf = Shelf::new();
    for id in ["run-z", "run-a", "run-m"] {
        shelf.save(&terminal_run(id, created_at)).expect("saved");
    }
    assert_eq!(shelf.list(None), vec!["run-a", "run-m", "run-z"]);
}

#[test]
fn limited_listing_does_not_parse_unselected_authority_files() {
    let base = at("2026-07-09T09:27:00Z");
    let mut shelf = Shelf::new();
    for (id, n) in [("run-oldest", 0), ("run-middle", 1), ("run-newest", 2)] {
        shelf.save(&terminal_run(id, seconds(base, n))).expect("saved");
    }
    shelf.overwrite("run-oldest", None);
    assert_eq!(shelf.list(Some(1)), vec!["run-newest"]);
}

#[test]
fn zero_run_limit_reads_no_authority_files() {
    let mut shelf = Shelf::new();
    shelf.save(&terminal_run("run-corrupt", at("2026-07-09T09:27:00Z"))).expect("saved");
    shelf.overwrite("run-corrupt", None);
    shelf.reads = 0;
    assert!(shelf.list(Some(0)).is_empty());
    assert_eq!(shelf.reads, 0);
}

#[test]
fn missing_corrupt_and_dirty_run_indexes_rebuild_from_authority() {
    let base = at("2026-07-09T09:27:00Z");
    let mut shelf = Shelf::new();
    shelf.put(&terminal_run("run-first", base));
    assert_eq!(shelf.list(None).len(), 1);
    validate_run_index(shelf.index.as_ref().expect("a missing index should be rebuilt"), ID)
        .expect("valid");

    let mut corrupt = copy(shelf.index.as_ref().expect("index"));
    corrupt.latest_terminal_at = None;
    shelf.index = Some(corrupt);
    assert_eq!(shelf.list(None).len(), 1);
    assert_eq!(shelf.index.as_ref().expect("index").latest_terminal_at, Some(base));

    shelf.overwrite("run-second", Some(terminal_run("run-second", seconds(base, 1))));
    shelf.dirty = true;
    assert_eq!(shelf.list(None).len(), 2);
    assert!(!shelf.dirty, "successful rebuild clears dirty");
}

#[test]
fn clean_index_detects_out_of_band_authority_add_and_remove() {
    let now = at("2026-07-09T09:27:00Z");
    let mut shelf = Shelf::new();
    shelf.save(&terminal_run("run-first", now)).expect("saved");
    shelf.put(&terminal_run("run-second", seconds(now, 1)));
    assert_eq!(shelf.list(None).len(), 2, "an add must invalidate the clean index");
    shelf.remove("run-first");
    assert_eq!(shelf.list(None), vec!["run-second"]);
}

#[test]
fn only_sound_indexes_are_used() {
    let shelf = Shelf::new();
    let sound = || {
        let mut index = build_index(ID, &Vec::new());
        index.authority_generation = shelf.generation;
        index
    };
    assert!(accept_run_index(&sound(), ID, shelf.generation).is_ok());
    assert!(index_to_use(false, Some(sound()), ID, shelf.generation).is_some());
    assert!(index_to_use(true, Some(sound()), ID, shelf.generation).is_none());
    assert!(index_to_use(false, None, ID, shelf.generation).is_none());
    assert!(index_to_use(false, Some(sound()), "another", shelf.generation).is_none());
    let mut later = shelf.generation;
    later.modified_secs += 1;
    assert!(index_to_use(false, Some(sound()), ID, later).is_none());
}

#[test]
fn stale_indexes_are_rebuilt_once() {
    let now = at("2026-07-09T09:27:00Z");
    let mut shelf = Shelf::new();
    shelf.save(&terminal_run("run", now)).expect("saved");
    let mut other = terminal_run("run", now);
    other.ended_at = Some(seconds(now, 9));
    shelf.overwrite("run", Some(other));
    let (runs, latest) = shelf.read(RunQuery::Listing { limit: None }).expect("rebuilt");
    assert_eq!(runs[0].ended_at, Some(seconds(now, 9)));
    assert_eq!(latest, Some(seconds(now, 9)));

    shelf.overwrite("run", None);
    let error = shelf.read(RunQuery::Listing { limit: None }).expect_err("nothing to rebuild from");
    assert_eq!(error, "Run index was stale: Failed to parse run");
}

#[test]
fn readings_say_what_was_wrong() {
    let now = at("2026-07-09T09:27:00Z");
    let index = || build_index(ID, &vec![queued_run("run", now)]);
    let stale = |query: RunQuery, again: Result<AutomationRunIndex, String>| {
        let mut course = RunReading::new(ID.to_string(), query);
        assert!(matches!(course.step(ReadingEvent::Begun), ReadingAction::LoadIndex));
        assert!(matches!(
            course.step(ReadingEvent::IndexLoaded(Ok(index()))),
            ReadingAction::LoadRun { run_id } if run_id == "run"
        ));
        if let ReadingAction::MarkDirty = course.step(ReadingEvent::RunLoaded(Ok(None))) {
            assert!(matches!(course.step(ReadingEvent::Marked), ReadingAction::RebuildIndex));
        }
        match course.step(ReadingEvent::IndexRebuilt(again)) {
            ReadingAction::LoadRun { .. } => course.step(ReadingEvent::RunLoaded(Ok(None))),
            action => action,
        }
    };
    let words = |action: ReadingAction| match action {
        ReadingAction::Fail(failure) => failure.message,
        other => panic!("unexpected action {other:?}"),
    };
    let listing = RunQuery::Listing { limit: None };
    let missing = "Run index references missing run 'run'";
    assert_eq!(words(stale(listing, Ok(index()))), missing);
    assert_eq!(words(stale(listing, Err("gone".to_string()))), format!("Run index was stale: {missing}"));
    assert_eq!(
        words(stale(RunQuery::Unsettled, Ok(index()))),
        format!("Run index remained stale after rebuild: {missing}")
    );
    assert_eq!(
        words(stale(RunQuery::Unsettled, Err("gone".to_string()))),
        format!("Run index active snapshot was stale: {missing}")
    );
    let mut unsafe_id = RunReading::new("../escape".to_string(), listing);
    assert_eq!(
        words(unsafe_id.step(ReadingEvent::Begun)),
        "automation id must be a single path component"
    );
    let mut broken = RunReading::new(ID.to_string(), listing);
    let _ = broken.step(ReadingEvent::Begun);
    assert_eq!(words(broken.step(ReadingEvent::IndexLoaded(Err("no index".to_string())))), "no index");
}

#[test]
fn active_out_of_band_change_rebuilds_clean_index_during_reconciliation() {
    let now = at("2026-07-09T09:27:00Z");
    let ended_at = seconds(now, 5);
    let mut active = queued_run("active-out-of-band", now);
    let mut shelf = Shelf::new();
    shelf.save(&active).expect("saved");
    active.status = AutomationRunStatus::Completed;
    active.started_at = Some(active.created_at);
    active.ended_at = Some(ended_at);
    shelf.overwrite("active-out-of-band", Some(active));

    let (runs, latest) = shelf.read(RunQuery::Unsettled).expect("read");
    assert!(runs.is_empty());
    assert_eq!(latest, Some(ended_at));
}

#[test]
fn reconcile_reads_active_runs_without_parsing_terminal_history() {
    let now = at("2026-07-09T09:27:00Z");
    let mut active = queued_run("active", now);
    active.status = AutomationRunStatus::Running;
    active.task_id = Some("task_done".to_string());
    let mut shelf = Shelf::new();
    shelf.save(&active).expect("saved");
    shelf.save(&terminal_run("terminal-corrupt-after-index", seconds(now, -1))).expect("saved");
    shelf.overwrite("terminal-corrupt-after-index", None);

    let (runs, latest) = shelf.read(RunQuery::Unsettled).expect("read");
    let seen = runs
        .into_iter()
        .map(|run| {
            assert_eq!(task_to_look_up(&run), Some("task_done"));
            ObservedRun {
                run,
                task: Some(TaskProgress {
                    status: TaskStatus::Completed,
                    started_at: Some(now),
                    ended_at: Some(now),
                    thread_id: None,
                    turn_id: None,
                    error: None,
                }),
            }
        })
        .collect();
    let plan = reconcile_runs(seen, seconds(now, 1), latest);
    for run in &plan.saves {
        shelf.save(run).expect("saved");
    }
    let stored = shelf.load_run("active").expect("readable").expect("active run");
    assert_eq!(stored.status, AutomationRunStatus::Completed);
}

#[test]
fn runs_are_listed_as_they_are_indexed() {
    let now = at("2026-07-09T09:27:00Z");
    let run = terminal_run("run", now);
    let entry = AutomationRunIndexEntry::from_run(&run);
    assert_eq!(take_listed_run("run", entry, Some(run.clone())).expect("run").id, "run");
    assert!(take_listed_run("run", entry, None).is_err());
    let mut other = run;
    other.status = AutomationRunStatus::Failed;
    assert!(take_listed_run("run", entry, Some(other)).is_err());
}

#[test]
fn indexes_are_kept_in_order() {
    let now = at("2026-07-09T09:27:00Z");
    let mut index = AutomationRunIndex::empty(ID);
    for id in ["b", "a", "c", "a"] {
        index.put(id.to_string(), AutomationRunIndexEntry::from_run(&terminal_run(id, now)));
    }
    let stored: Vec<&str> = index.entries.iter().map(|run| run.id.as_str()).collect();
    assert_eq!(stored, vec!["a", "b", "c"]);
    index.remove("b");
    index.remove("missing");
    assert_eq!(index.entries.len(), 2);
    assert_eq!(listed_runs(&index, Some(1)).len(), 1);
    validate_run_index(&index, "other").expect_err("another automation's index");
}

// Retention ------------------------------------------------------------------
#[test]
fn rebuild_prunes_old_terminal_runs_but_keeps_active_and_pending_runs() {
    let base = at("2026-07-07T09:27:00Z");
    let mut shelf = thousand_and_one(base);
    shelf.put(&queued_run("active-old", seconds(base, -3_600)));
    let mut pending =
        PendingEnqueueRecord::for_slot(ID, seconds(base, -7_200), seconds(base, -7_200));
    pending.run.status = AutomationRunStatus::Completed;
    pending.run.started_at = Some(pending.run.created_at);
    pending.run.ended_at = Some(pending.run.created_at);
    shelf.put(&pending.run);
    shelf.journal.push(Some(pending.clone()));

    let kept = shelf.list(None);
    assert_eq!(kept.len(), 1_002, "1000 ordinary terminal + protected pending + active");
    assert!(kept.contains(&"active-old".to_string()));
    assert!(kept.contains(&pending.run.id));
    assert!(!shelf.files.contains_key("terminal-0000"), "the oldest unprotected run goes");
}

#[test]
fn invalid_pending_record_blocks_retention_for_its_owner() {
    let mut shelf = thousand_and_one(at("2026-07-07T09:27:00Z"));
    shelf.journal.push(None);
    assert_eq!(shelf.list(None).len(), 1_001);
    assert!(shelf.files.contains_key("terminal-0000"));
}

#[test]
fn host_guard_protects_old_terminal_run_outside_ordinary_limit() {
    let base = at("2026-07-09T08:27:00Z");
    let mut shelf = Shelf::new();
    shelf.max = 1;
    shelf.guard = Some(Guard { protected: "terminal-protected-old", fail: false });
    for (id, n) in [("terminal-protected-old", 0), ("terminal-middle", 1), ("terminal-newest", 2)] {
        shelf.put(&terminal_run(id, seconds(base, n)));
    }
    assert_eq!(shelf.list(None), vec!["terminal-newest", "terminal-protected-old"]);
    assert!(!shelf.files.contains_key("terminal-middle"));
}

#[test]
fn host_guard_error_blocks_pruning_for_owner() {
    let base = at("2026-07-09T08:27:00Z");
    let mut shelf = Shelf::new();
    shelf.max = 1;
    shelf.guard = Some(Guard { protected: "", fail: true });
    for index in 0..3 {
        shelf.put(&terminal_run(&format!("terminal-{index}"), seconds(base, index)));
    }
    assert_eq!(shelf.list(None).len(), 3);
}

#[test]
fn retention_guard_does_not_parse_retained_history_on_nonterminal_save() {
    let base = at("2026-07-09T08:27:00Z");
    let mut shelf = Shelf::new();
    for index in 0..2 {
        shelf.save(&terminal_run(&format!("terminal-{index}"), seconds(base, index))).expect("saved");
    }
    shelf.max = 2;
    shelf.guard = Some(Guard { protected: "", fail: false });
    shelf.reads = 0;
    shelf.save(&queued_run("active-run", seconds(base, 2))).expect("saved");
    assert_eq!(shelf.reads, 0, "a save below the threshold must not parse terminal history");
}

#[test]
fn terminal_retention_reads_only_prune_candidates() {
    let base = at("2026-07-09T08:27:00Z");
    let mut shelf = Shelf::new();
    for index in 0..4 {
        shelf.save(&terminal_run(&format!("terminal-{index}"), seconds(base, index))).expect("saved");
    }
    shelf.max = 2;
    shelf.guard = Some(Guard { protected: "", fail: false });
    shelf.reads = 0;
    shelf.save(&terminal_run("terminal-newest", seconds(base, 4))).expect("saved");
    assert_eq!(shelf.reads, 3, "the newest retention floor must not be parsed");
    assert_eq!(shelf.files.len(), 2);
}

#[test]
fn doubt_keeps_every_run() {
    let base = at("2026-07-09T08:27:00Z");
    let runs = (0..4).map(|i| terminal_run(&format!("terminal-{i}"), seconds(base, i))).collect();
    let index = build_index(ID, &runs);
    let mut unread = Retention::new(&index, 1, false);
    assert!(matches!(unread.step(RetentionEvent::Begun), RetentionAction::Scan));
    assert!(matches!(
        unread.step(RetentionEvent::Scanned(PendingScan::Unreadable)),
        RetentionAction::Finish { gone } if gone.is_empty()
    ));

    let mut asked = Retention::new(&index, 1, true);
    let _ = asked.step(RetentionEvent::Begun);
    let held = PendingScan::Runs(vec!["terminal-1".to_string()]);
    assert!(matches!(
        asked.step(RetentionEvent::Scanned(held)),
        RetentionAction::Ask { run_id } if run_id == "terminal-2"
    ));
    assert!(matches!(
        asked.step(RetentionEvent::Answered(GuardAnswer::Release)),
        RetentionAction::Ask { run_id } if run_id == "terminal-0"
    ));
    assert!(matches!(
        asked.step(RetentionEvent::Answered(GuardAnswer::Unknown)),
        RetentionAction::Finish { gone } if gone.is_empty()
    ));
}

#[test]
fn runs_that_cannot_be_removed_are_kept_in_the_index() {
    let base = at("2026-07-09T08:27:00Z");
    let runs = (0..3).map(|i| terminal_run(&format!("terminal-{i}"), seconds(base, i))).collect();
    let index = build_index(ID, &runs);
    let mut course = Retention::new(&index, 1, false);
    let _ = course.step(RetentionEvent::Begun);
    assert!(matches!(
        course.step(RetentionEvent::Scanned(PendingScan::Runs(Vec::new()))),
        RetentionAction::Remove { run_id } if run_id == "terminal-1"
    ));
    assert!(matches!(
        course.step(RetentionEvent::Removed { gone: false }),
        RetentionAction::Remove { run_id } if run_id == "terminal-0"
    ));
    let gone = match course.step(RetentionEvent::Removed { gone: true }) {
        RetentionAction::Finish { gone } => gone,
        other => panic!("unexpected action {other:?}"),
    };
    assert_eq!(gone, vec!["terminal-0"]);
    let left: Vec<String> = thin_index(index, &gone).entries.into_iter().map(|run| run.id).collect();
    assert_eq!(left, vec!["terminal-1", "terminal-2"]);
}

#[test]
fn held_runs_are_left_out() {
    let list = |ids: &[&str]| ids.iter().map(|id| id.to_string()).collect::<Vec<String>>();
    assert_eq!(without(&list(&["a", "b", "c"]), &list(&["b"])), list(&["a", "c"]));
}

// Saving ---------------------------------------------------------------------
#[test]
fn authority_write_survives_index_write_failure_and_dirty_rebuild_recovers() {
    let now = at("2026-07-09T09:27:00Z");
    let mut shelf = Shelf::new();
    shelf.save(&terminal_run("run-first", now)).expect("saved");
    assert!(shelf.index.is_some());
    shelf.index = None;
    shelf.index_fails = true;
    shelf.save(&terminal_run("run-second", seconds(now, 1))).expect("saved");
    assert!(shelf.files.contains_key("run-second"));
    assert!(shelf.dirty);
    shelf.index_fails = false;
    assert_eq!(shelf.list(None).len(), 2);
    assert!(!shelf.dirty);
}

#[test]
fn dirty_marker_failure_prevents_unjournaled_authority_write() {
    let mut shelf = Shelf::new();
    shelf.marker_fails = true;
    let result = shelf.save(&terminal_run("run-unjournaled", at("2026-07-09T09:27:00Z")));
    assert_eq!(result.expect_err("a durable marker is required"), "no room for the marker");
    assert!(shelf.files.is_empty(), "an unjournaled record must not be published");
}

#[test]
fn runs_that_fit_nowhere_are_not_saved() {
    let mut shelf = Shelf::new();
    let run = terminal_run("../escape", at("2026-07-09T09:27:00Z"));
    assert!(shelf.save(&run).expect_err("refused").contains("single path component"));
    assert!(shelf.files.is_empty());
    assert!(!shelf.dirty);
}

// The journal ----------------------------------------------------------------
#[test]
fn journals_are_read_in_the_order_of_their_making() {
    let now = at("2026-07-09T09:27:00Z");
    let file = |due: i64, made: i64| {
        let record = PendingEnqueueRecord::for_slot(ID, seconds(now, due), seconds(now, made));
        JournalFile::Read { file_stem: record.run.id.clone(), record }
    };
    let (records, blocked) = read_journal(ID, vec![file(0, 9), file(60, 3), file(120, 5)]);
    assert!(!blocked);
    let made: Vec<i64> = records.iter().map(|record| record.run.created_at.secs - now.secs).collect();
    assert_eq!(made, vec![3, 5, 9]);

    let (records, blocked) = read_journal(ID, vec![file(0, 9), JournalFile::Unreadable]);
    assert!(blocked);
    assert_eq!(records.len(), 1);

    let record = PendingEnqueueRecord::for_slot(ID, now, now);
    let misplaced = JournalFile::Read { file_stem: "slot_1".to_string(), record };
    let (records, blocked) = read_journal(ID, vec![misplaced]);
    assert!(blocked);
    assert!(records.is_empty());
}

#[test]
fn owners_come_in_order() {
    let names = |list: &[&str]| list.iter().map(|name| name.to_string()).collect::<Vec<String>>();
    assert_eq!(order_owners(names(&["b", "c", "a"])).expect("owners"), names(&["a", "b", "c"]));
    let error = order_owners(names(&["b", "../c", ""])).expect_err("unsafe");
    assert_eq!(error.message, "automation id must be a single path component");
}
