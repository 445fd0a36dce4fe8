//! The index of an automation's runs: what a listing needs to know of each run
//! without reading its record.
use vstd::prelude::*;
use vstd::string::*;

use crate::automation::{
    is_terminal_run_status, later_of, max_time, AutomationRunRecord, AutomationRunStatus,
};
use crate::failure::{failure, fault_of, Failure};
use crate::order::{is_sorted_from, sort_stable, strict_weak};
use crate::storage_id::{ensure_safe_storage_id, storage_id_fault};
use crate::text::{
    contains_text, copy_text, dec, decimal, join3, lex_less, lex_less_is_a_strict_order, same_text,
    text_less, texts,
};
use crate::time::Timestamp;

verus! {

/// The layout of an index that is understood.
pub const CURRENT_RUN_INDEX_SCHEMA_VERSION: u32 = 1;

/// How many finished runs are kept for their own sake.
pub const DEFAULT_MAX_UNPROTECTED_TERMINAL_RUNS: usize = 1_000;

/// When the directory of run records was last changed.
#[derive(Debug, Clone, Copy, PartialEq, Eq, Structural)]
pub struct RunAuthorityGeneration {
    pub modified_secs: u64,
    pub modified_nanos: u32,
}

impl Default for RunAuthorityGeneration {
    fn default() -> (r: Self)
        ensures
            r.modified_secs == 0 && r.modified_nanos == 0,
    {
        RunAuthorityGeneration { modified_secs: 0, modified_nanos: 0 }
    }
}

/// What the index says of a run.
#[derive(Debug, Clone, Copy, PartialEq, Eq, Structural)]
pub struct AutomationRunIndexEntry {
    pub created_at: Timestamp,
    pub status: AutomationRunStatus,
    pub terminal_at: Option<Timestamp>,
}

/// A run's identifier with what the index says of it.
#[derive(Debug)]
pub struct IndexedRun {
    pub id: String,
    pub entry: AutomationRunIndexEntry,
}

/// The index of one automation's runs, in the order of their identifiers.
#[derive(Debug)]
pub struct AutomationRunIndex {
    pub schema_version: u32,
    pub automation_id: String,
    pub entries: Vec<IndexedRun>,
    pub authority_generation: RunAuthorityGeneration,
    pub latest_terminal_at: Option<Timestamp>,
}

/// The identifiers rise strictly, so none occurs twice.
pub open spec fn ids_rise(entries: Seq<IndexedRun>) -> bool {
    forall|i: int, j: int|
        0 <= i < j < entries.len() ==> lex_less((#[trigger] entries[i]).id@, (#[trigger] entries[j]).id@)
}

/// Whether a run is in the index.
pub open spec fn lists(entries: Seq<IndexedRun>, id: Seq<char>) -> bool {
    exists|i: int| 0 <= i < entries.len() && (#[trigger] entries[i]).id@ == id
}

/// What the index says of a run, where it lists it.
pub open spec fn entry_of(entries: Seq<IndexedRun>, id: Seq<char>) -> Option<AutomationRunIndexEntry>
    decreases entries.len(),
{
    if entries.len() == 0 {
        None
    } else if entries.last().id@ == id {
        Some(entries.last().entry)
    } else {
        entry_of(entries.drop_last(), id)
    }
}

/// What is known of a run from its place in the index.
pub proof fn lemma_entry_at(entries: Seq<IndexedRun>, i: int)
    requires
        ids_rise(entries),
        0 <= i < entries.len(),
    ensures
        entry_of(entries, entries[i].id@) == Some(entries[i].entry),
    decreases entries.len(),
{
    let last = entries.len() - 1;
    if i < last {
        lex_less_is_a_strict_order(entries[i].id@, entries[last].id@, entries[i].id@);
        assert(entries[i].id@ != entries.last().id@);
        assert(entries.drop_last()[i] == entries[i]);
        lemma_entry_at(entries.drop_last(), i);
    }
}

/// A run has an entry just where it is listed.
pub proof fn lemma_entry_listed(entries: Seq<IndexedRun>, id: Seq<char>)
    ensures
        entry_of(entries, id) is Some <==> lists(entries, id),
    decreases entries.len(),
{
    if entries.len() > 0 {
        let init = entries.drop_last();
        lemma_entry_listed(init, id);
        if lists(init, id) {
            let i = choose|i: int| 0 <= i < init.len() && (#[trigger] init[i]).id@ == id;
            assert(entries[i].id@ == id);
        }
        if lists(entries, id) && entries.last().id@ != id {
            let i = choose|i: int| 0 <= i < entries.len() && (#[trigger] entries[i]).id@ == id;
            assert(init[i].id@ == id);
        }
        if entries.last().id@ == id {
            assert(entries[entries.len() - 1].id@ == id);
        }
    }
}

impl AutomationRunIndexEntry {
    /// What the index says of `run`.
    pub open spec fn of_run(run: AutomationRunRecord) -> AutomationRunIndexEntry {
        AutomationRunIndexEntry {
            created_at: run.created_at,
            status: run.status,
            terminal_at: if run.status.terminal() {
                run.ended_at
            } else {
                None
            },
        }
    }

    /// What the index says of `run`.
    pub fn from_run(run: &AutomationRunRecord) -> (r: Self)
        ensures
            r == Self::of_run(*run),
    {
        AutomationRunIndexEntry {
            created_at: run.created_at,
            status: run.status,
            terminal_at: if is_terminal_run_status(run.status) {
                run.ended_at
            } else {
                None
            },
        }
    }
}

impl AutomationRunIndex {
    /// The identifiers are in order.
    pub open spec fn wf(self) -> bool {
        ids_rise(self.entries@)
    }

    /// What the index says of a run.
    pub open spec fn entry(self, id: Seq<char>) -> Option<AutomationRunIndexEntry> {
        entry_of(self.entries@, id)
    }

    /// An index that lists nothing.
    pub fn empty(automation_id: &str) -> (r: Self)
        ensures
            r.wf(),
            r.schema_version == CURRENT_RUN_INDEX_SCHEMA_VERSION,
            r.automation_id@ == automation_id@,
            r.entries@.len() == 0,
            r.authority_generation.modified_secs == 0 && r.authority_generation.modified_nanos == 0,
            r.latest_terminal_at is None,
    {
        AutomationRunIndex {
            schema_version: CURRENT_RUN_INDEX_SCHEMA_VERSION,
            automation_id: copy_text(automation_id),
            entries: Vec::new(),
            authority_generation: RunAuthorityGeneration::default(),
            latest_terminal_at: None,
        }
    }

    /// Where `id` stands, or where it would be put.
    fn place(&self, id: &str) -> (r: (usize, bool))
        requires
            self.wf(),
        ensures
            r.0 <= self.entries@.len(),
            forall|i: int| 0 <= i < r.0 ==> lex_less((#[trigger] self.entries@[i]).id@, id@),
            r.1 ==> r.0 < self.entries@.len() && self.entries@[r.0 as int].id@ == id@,
            !r.1 ==> forall|i: int|
                r.0 <= i < self.entries@.len() ==> lex_less(id@, (#[trigger] self.entries@[i]).id@),
    {
        let mut i: usize = 0;
        while i < self.entries.len()
            invariant
                i <= self.entries@.len(),
                self.wf(),
                forall|k: int| 0 <= k < i ==> lex_less((#[trigger] self.entries@[k]).id@, id@),
            decreases self.entries@.len() - i,
        {
            if same_text(self.entries[i].id.as_str(), id) {
                return (i, true);
            }
            if text_less(id, self.entries[i].id.as_str()) {
                proof {
                    assert forall|k: int| i <= k < self.entries@.len() implies lex_less(
                        id@,
                        (#[trigger] self.entries@[k]).id@,
                    ) by {
                        if k > i {
                            lex_less_is_a_strict_order(
                                id@,
                                self.entries@[i as int].id@,
                                self.entries@[k].id@,
                            );
                        }
                    }
                }
                return (i, false);
            }
            proof {
                lex_less_is_a_strict_order(id@, self.entries@[i as int].id@, id@);
            }
            i += 1;
        }
        (i, false)
    }

    /// Enters a run, in place of an earlier entry.
    pub fn put(&mut self, id: String, entry: AutomationRunIndexEntry)
        requires
            old(self).wf(),
        ensures
            final(self).wf(),
            *final(self) == (AutomationRunIndex { entries: final(self).entries, ..*old(self) }),
            final(self).entry(id@) == Some(entry),
            forall|other: Seq<char>|
                other != id@ ==> #[trigger] final(self).entry(other) == old(self).entry(other),
    {
        let ghost name = id@;
        let ghost before = self.entries@;
        let (at, found) = self.place(id.as_str());
        let run = IndexedRun { id, entry };
        let ghost added = run;
        if found {
            self.entries.set(at, run);
            proof {
                let after = self.entries@;
                assert(ids_rise(after)) by {
                    assert forall|i: int, j: int| 0 <= i < j < after.len() implies lex_less(
                        (#[trigger] after[i]).id@,
                        (#[trigger] after[j]).id@,
                    ) by {
                        assert(lex_less(before[i].id@, before[j].id@));
                    }
                }
                lemma_entry_at(after, at as int);
                assert forall|other: Seq<char>| other != name implies #[trigger] entry_of(after, other)
                    == entry_of(before, other) by {
                    lemma_update_keeps_others(before, at as int, added, other);
                }
            }
        } else {
            self.entries.insert(at, run);
            proof {
                let after = self.entries@;
                assert(ids_rise(after)) by {
                    assert forall|i: int, j: int| 0 <= i < j < after.len() implies lex_less(
                        (#[trigger] after[i]).id@,
                        (#[trigger] after[j]).id@,
                    ) by {
                        let bi = if i < at {
                            i
                        } else {
                            i - 1
                        };
                        let bj = if j < at {
                            j
                        } else {
                            j - 1
                        };
                        if i == at {
                            assert(after[j] == before[bj]);
                        } else if j == at {
                            assert(after[i] == before[bi]);
                        } else {
                            assert(after[i] == before[bi] && after[j] == before[bj]);
                        }
                    }
                }
                lemma_entry_at(after, at as int);
                assert forall|other: Seq<char>| other != name implies #[trigger] entry_of(after, other)
                    == entry_of(before, other) by {
                    lemma_insert_keeps_others(before, at as int, added, other);
                }
            }
        }
    }

    /// Takes a run out.
    pub fn remove(&mut self, id: &str)
        requires
            old(self).wf(),
        ensures
            final(self).wf(),
            *final(self) == (AutomationRunIndex { entries: final(self).entries, ..*old(self) }),
            final(self).entry(id@) is None,
            forall|other: Seq<char>|
                other != id@ ==> #[trigger] final(self).entry(other) == old(self).entry(other),
    {
        let ghost before = self.entries@;
        let (at, found) = self.place(id);
        if found {
            let _ = self.entries.remove(at);
            proof {
                let after = self.entries@;
                assert(before == after.insert(at as int, before[at as int]));
                assert(ids_rise(after)) by {
                    assert forall|i: int, j: int| 0 <= i < j < after.len() implies lex_less(
                        (#[trigger] after[i]).id@,
                        (#[trigger] after[j]).id@,
                    ) by {
                        let bi = if i < at {
                            i
                        } else {
                            i + 1
                        };
                        let bj = if j < at {
                            j
                        } else {
                            j + 1
                        };
                        assert(after[i] == before[bi] && after[j] == before[bj]);
                    }
                }
                assert forall|other: Seq<char>| other != id@ implies #[trigger] entry_of(after, other)
                    == entry_of(before, other) by {
                    lemma_insert_keeps_others(after, at as int, before[at as int], other);
                }
                lemma_entry_listed(after, id@);
                if lists(after, id@) {
                    let i = choose|i: int| 0 <= i < after.len() && (#[trigger] after[i]).id@ == id@;
                    let bi = if i < at {
                        i
                    } else {
                        i + 1
                    };
                    assert(after[i] == before[bi]);
                    lex_less_is_a_strict_order(id@, id@, id@);
                    if bi < at {
                        assert(lex_less(before[bi].id@, before[at as int].id@));
                    } else {
                        assert(lex_less(before[at as int].id@, before[bi].id@));
                    }
                }
            }
        } else {
            proof {
                lemma_entry_listed(before, id@);
                if lists(before, id@) {
                    let i = choose|i: int| 0 <= i < before.len() && (#[trigger] before[i]).id@ == id@;
                    lex_less_is_a_strict_order(id@, id@, id@);
                }
            }
        }
    }
}

proof fn lemma_update_keeps_others(
    entries: Seq<IndexedRun>,
    at: int,
    run: IndexedRun,
    other: Seq<char>,
)
    requires
        0 <= at < entries.len(),
        entries[at].id@ == run.id@,
        run.id@ != other,
    ensures
        entry_of(entries.update(at, run), other) == entry_of(entries, other),
    decreases entries.len(),
{
    let after = entries.update(at, run);
    if at == entries.len() - 1 {
        assert(after.drop_last() =~= entries.drop_last());
    } else {
        assert(after.drop_last() =~= entries.drop_last().update(at, run));
        lemma_update_keeps_others(entries.drop_last(), at, run, other);
    }
}

proof fn lemma_insert_keeps_others(
    entries: Seq<IndexedRun>,
    at: int,
    run: IndexedRun,
    other: Seq<char>,
)
    requires
        0 <= at <= entries.len(),
        run.id@ != other,
    ensures
        entry_of(entries.insert(at, run), other) == entry_of(entries, other),
    decreases entries.len(),
{
    let after = entries.insert(at, run);
    if at == entries.len() {
        assert(after.drop_last() =~= entries);
    } else {
        assert(after.drop_last() =~= entries.drop_last().insert(at, run));
        assert(after.last() == entries.last());
        lemma_insert_keeps_others(entries.drop_last(), at, run, other);
    }
}

// The latest end -------------------------------------------------------------
/// When the last of the finished runs ended.
pub open spec fn latest_terminal(entries: Seq<IndexedRun>) -> Option<Timestamp>
    decreases entries.len(),
{
    if entries.len() == 0 {
        None
    } else {
        let before = latest_terminal(entries.drop_last());
        let entry = entries.last().entry;
        if entry.status.terminal() && entry.terminal_at is Some {
            Some(later_of(before, entry.terminal_at->Some_0))
        } else {
            before
        }
    }
}

fn find_latest_terminal(entries: &Vec<IndexedRun>) -> (r: Option<Timestamp>)
    ensures
        r == latest_terminal(entries@),
{
    let mut latest: Option<Timestamp> = None;
    let mut i: usize = 0;
    assert(entries@.take(0) =~= Seq::empty());
    while i < entries.len()
        invariant
            i <= entries@.len(),
            latest == latest_terminal(entries@.take(i as int)),
        decreases entries@.len() - i,
    {
        proof {
            assert(entries@.take(i + 1).drop_last() =~= entries@.take(i as int));
        }
        let entry = entries[i].entry;
        if is_terminal_run_status(entry.status) {
            if let Some(t) = entry.terminal_at {
                latest = Some(max_time(latest, t));
            }
        }
        i += 1;
    }
    assert(entries@.take(entries@.len() as int) =~= entries@);
    latest
}

/// Notes when the last of the finished runs ended.
pub fn refresh_latest_terminal_at(index: &mut AutomationRunIndex)
    ensures
        *final(index) == (AutomationRunIndex {
            latest_terminal_at: latest_terminal(old(index).entries@),
            ..*old(index)
        }),
{
    index.latest_terminal_at = find_latest_terminal(&index.entries);
}

// Checks ---------------------------------------------------------------------
/// What is wrong with one entry.
pub open spec fn entry_fault(run: IndexedRun) -> Option<Seq<char>> {
    let named = storage_id_fault("indexed run id"@, run.id@);
    if named is Some {
        named
    } else if !run.entry.status.terminal() && run.entry.terminal_at is Some {
        Some("Active run '"@ + run.id@ + "' has terminal metadata in index"@)
    } else {
        None
    }
}

/// What is wrong with the first entry that something is wrong with.
pub open spec fn entries_fault(entries: Seq<IndexedRun>) -> Option<Seq<char>>
    decreases entries.len(),
{
    if entries.len() == 0 {
        None
    } else {
        let before = entries_fault(entries.drop_last());
        if before is Some {
            before
        } else {
            entry_fault(entries.last())
        }
    }
}

/// What is wrong with an index that is stored for `automation_id`.
pub open spec fn index_fault(index: AutomationRunIndex, automation_id: Seq<char>) -> Option<Seq<char>> {
    let owner = storage_id_fault("automation id"@, automation_id);
    let entries = entries_fault(index.entries@);
    if index.schema_version != CURRENT_RUN_INDEX_SCHEMA_VERSION {
        Some(
            "Unsupported run index schema v"@ + dec(index.schema_version as nat) + " (expected v"@
                + dec(CURRENT_RUN_INDEX_SCHEMA_VERSION as nat) + ")"@,
        )
    } else if owner is Some {
        owner
    } else if index.automation_id@ != automation_id {
        Some("Run index belongs to a different automation"@)
    } else if entries is Some {
        entries
    } else if index.latest_terminal_at != latest_terminal(index.entries@) {
        Some("Run index latest terminal metadata is inconsistent"@)
    } else {
        None
    }
}

fn check_entry(run: &IndexedRun) -> (r: Result<(), Failure>)
    ensures
        fault_of(r) == entry_fault(*run),
{
    if let Err(e) = ensure_safe_storage_id("indexed run id", run.id.as_str()) {
        return Err(e);
    }
    if !is_terminal_run_status(run.entry.status) && run.entry.terminal_at.is_some() {
        return Err(
            Failure {
                message: join3("Active run '", run.id.as_str(), "' has terminal metadata in index"),
            },
        );
    }
    Ok(())
}

proof fn lemma_entries_fault_persists(entries: Seq<IndexedRun>, n: int)
    requires
        0 <= n <= entries.len(),
        entries_fault(entries.take(n)) is Some,
    ensures
        entries_fault(entries) == entries_fault(entries.take(n)),
    decreases entries.len(),
{
    if n == entries.len() {
        assert(entries.take(n) =~= entries);
    } else {
        assert(entries.drop_last().take(n) =~= entries.take(n));
        lemma_entries_fault_persists(entries.drop_last(), n);
    }
}

/// Accepts an index that may be stored for `expected_automation_id`.
pub fn validate_run_index(index: &AutomationRunIndex, expected_automation_id: &str) -> (r: Result<
    (),
    Failure,
>)
    ensures
        fault_of(r) == index_fault(*index, expected_automation_id@),
{
    if index.schema_version != CURRENT_RUN_INDEX_SCHEMA_VERSION {
        let mut message = join3(
            "Unsupported run index schema v",
            decimal(index.schema_version as u64).as_str(),
            " (expected v",
        );
        message.append(decimal(CURRENT_RUN_INDEX_SCHEMA_VERSION as u64).as_str());
        message.append(")");
        return Err(Failure { message });
    }
    if let Err(e) = ensure_safe_storage_id("automation id", expected_automation_id) {
        return Err(e);
    }
    if !same_text(index.automation_id.as_str(), expected_automation_id) {
        return Err(failure("Run index belongs to a different automation"));
    }
    let mut i: usize = 0;
    assert(index.entries@.take(0) =~= Seq::empty());
    while i < index.entries.len()
        invariant
            i <= index.entries@.len(),
            entries_fault(index.entries@.take(i as int)) is None,
            storage_id_fault("automation id"@, expected_automation_id@) is None,
            index.automation_id@ == expected_automation_id@,
            index.schema_version == CURRENT_RUN_INDEX_SCHEMA_VERSION,
        decreases index.entries@.len() - i,
    {
        proof {
            assert(index.entries@.take(i + 1).drop_last() =~= index.entries@.take(i as int));
        }
        if let Err(e) = check_entry(&index.entries[i]) {
            proof {
                lemma_entries_fault_persists(index.entries@, i + 1);
            }
            return Err(e);
        }
        i += 1;
    }
    assert(index.entries@.take(index.entries@.len() as int) =~= index.entries@);
    if index.latest_terminal_at != find_latest_terminal(&index.entries) {
        return Err(failure("Run index latest terminal metadata is inconsistent"));
    }
    Ok(())
}

/// Accepts a stored index that is valid and no older than the run records.
pub fn accept_run_index(
    index: &AutomationRunIndex,
    expected_automation_id: &str,
    generation: RunAuthorityGeneration,
) -> (r: Result<(), Failure>)
    ensures
        fault_of(r) == match index_fault(*index, expected_automation_id@) {
            Some(words) => Some(words),
            None => if index.authority_generation != generation {
                Some("Run authority directory changed since the index was saved"@)
            } else {
                None
            },
        },
{
    if let Err(e) = validate_run_index(index, expected_automation_id) {
        return Err(e);
    }
    if index.authority_generation != generation {
        return Err(failure("Run authority directory changed since the index was saved"));
    }
    Ok(())
}

/// The stored index, where it may be used: it is not marked as out of date, there is one that
/// can be read, it is valid, and it is no older than the run records.
pub open spec fn usable_index(
    dirty: bool,
    stored: Option<AutomationRunIndex>,
    automation_id: Seq<char>,
    generation: RunAuthorityGeneration,
) -> Option<AutomationRunIndex> {
    match stored {
        Some(index) if !dirty && index_fault(index, automation_id) is None
            && index.authority_generation == generation => Some(index),
        _ => None,
    }
}

/// The stored index, where it may be used; else it has to be made anew from the records.
pub fn index_to_use(
    dirty: bool,
    stored: Option<AutomationRunIndex>,
    automation_id: &str,
    generation: RunAuthorityGeneration,
) -> (r: Option<AutomationRunIndex>)
    ensures
        r is Some <==> !dirty && (stored matches Some(i) && index_fault(i, automation_id@) is None
            && i.authority_generation == generation),
        r is Some ==> r == stored,
        r == usable_index(dirty, stored, automation_id@, generation),
{
    if dirty {
        return None;
    }
    match stored {
        None => None,
        Some(index) => if accept_run_index(&index, automation_id, generation).is_ok() {
            Some(index)
        } else {
            None
        },
    }
}

/// A listed run that has no record.
pub open spec fn missing_run(run_id: Seq<char>) -> Seq<char> {
    "Run index references missing run '"@ + run_id + "'"@
}

/// Whether what the index says of a run is what its record says.
pub open spec fn entry_matches(run: AutomationRunRecord, entry: AutomationRunIndexEntry) -> bool {
    &&& run.created_at == entry.created_at
    &&& run.status == entry.status
    &&& run.status.terminal() ==> run.ended_at == entry.terminal_at
}

/// Takes the record of a listed run into a listing.
pub fn take_listed_run(
    run_id: &str,
    entry: AutomationRunIndexEntry,
    loaded: Option<AutomationRunRecord>,
) -> (r: Result<AutomationRunRecord, Failure>)
    ensures
        match loaded {
            None => r matches Err(e) && e@ == missing_run(run_id@),
            Some(run) => if entry_matches(run, entry) {
                r == Ok::<_, Failure>(run)
            } else {
                r matches Err(e) && e@ == "Run index metadata for '"@ + run.id@
                    + "' does not match its authority record"@
            },
        },
{
    let run = match loaded {
        None => {
            return Err(
                Failure { message: join3("Run index references missing run '", run_id, "'") },
            );
        },
        Some(run) => run,
    };
    if run.created_at != entry.created_at || run.status != entry.status || (is_terminal_run_status(
        run.status,
    ) && run.ended_at != entry.terminal_at) {
        return Err(
            Failure {
                message: join3(
                    "Run index metadata for '",
                    run.id.as_str(),
                    "' does not match its authority record",
                ),
            },
        );
    }
    Ok(run)
}

/// Whether a run has to be looked at again: it has not ended, or nothing says when.
pub open spec fn is_unsettled(entry: AutomationRunIndexEntry) -> bool {
    !entry.status.terminal() || entry.terminal_at is None
}

/// The runs that have to be looked at again, in the order of the index.
pub open spec fn unsettled(entries: Seq<IndexedRun>) -> Seq<IndexedRun>
    decreases entries.len(),
{
    if entries.len() == 0 {
        Seq::empty()
    } else {
        let before = unsettled(entries.drop_last());
        if is_unsettled(entries.last().entry) {
            before.push(entries.last())
        } else {
            before
        }
    }
}

/// The runs that have to be looked at again, in the order of the index.
pub fn unsettled_runs(index: &AutomationRunIndex) -> (r: Vec<IndexedRun>)
    ensures
        r@ == unsettled(index.entries@),
{
    let mut out: Vec<IndexedRun> = Vec::new();
    let mut i: usize = 0;
    assert(index.entries@.take(0) =~= Seq::empty());
    while i < index.entries.len()
        invariant
            i <= index.entries@.len(),
            out@ == unsettled(index.entries@.take(i as int)),
        decreases index.entries@.len() - i,
    {
        proof {
            assert(index.entries@.take(i + 1).drop_last() =~= index.entries@.take(i as int));
        }
        let run = &index.entries[i];
        if !is_terminal_run_status(run.entry.status) || run.entry.terminal_at.is_none() {
            out.push(copy_indexed(run));
        }
        i += 1;
    }
    assert(index.entries@.take(index.entries@.len() as int) =~= index.entries@);
    out
}

/// Takes the record of a run that has to be looked at again.
pub fn take_unsettled_run(
    run_id: &str,
    entry: AutomationRunIndexEntry,
    loaded: Option<AutomationRunRecord>,
) -> (r: Result<AutomationRunRecord, Failure>)
    ensures
        match loaded {
            None => r matches Err(e) && e@ == missing_run(run_id@),
            Some(run) => if run.created_at == entry.created_at && run.status == entry.status {
                r == Ok::<_, Failure>(run)
            } else {
                r matches Err(e) && e@ == "Run index metadata for '"@ + run_id@ + "' is stale"@
            },
        },
{
    let run = match loaded {
        None => {
            return Err(
                Failure { message: join3("Run index references missing run '", run_id, "'") },
            );
        },
        Some(run) => run,
    };
    if run.created_at != entry.created_at || run.status != entry.status {
        return Err(
            Failure { message: join3("Run index metadata for '", run_id, "' is stale") },
        );
    }
    Ok(run)
}

fn copy_indexed(run: &IndexedRun) -> (r: IndexedRun)
    ensures
        r == *run,
{
    IndexedRun { id: run.id.clone(), entry: run.entry }
}

// Listing --------------------------------------------------------------------
/// The order of a listing: newest first, and by identifier where two were created
/// at the same time.
pub open spec fn newest_first() -> spec_fn(IndexedRun, IndexedRun) -> bool {
    |a: IndexedRun, b: IndexedRun|
        b.entry.created_at.before(a.entry.created_at) || (a.entry.created_at == b.entry.created_at
            && lex_less(a.id@, b.id@))
}

proof fn lemma_newest_first()
    ensures
        strict_weak(newest_first()),
{
    let before = newest_first();
    assert forall|a: IndexedRun, b: IndexedRun| #[trigger] before(a, b) implies !before(b, a) by {
        lex_less_is_a_strict_order(a.id@, b.id@, a.id@);
    }
    assert forall|a: IndexedRun, b: IndexedRun, c: IndexedRun|
        #![trigger before(a, c), before(a, b)]
        before(a, c) implies before(a, b) || before(b, c) by {
        lex_less_is_a_strict_order(a.id@, b.id@, c.id@);
        lex_less_is_a_strict_order(b.id@, a.id@, c.id@);
        lex_less_is_a_strict_order(a.id@, c.id@, b.id@);
        lex_less_is_a_strict_order(b.id@, c.id@, a.id@);
    }
}

fn sort_newest_first(list: Vec<IndexedRun>) -> (r: Vec<IndexedRun>)
    ensures
        is_sorted_from(list@, r@, newest_first()),
{
    let less = |a: &IndexedRun, b: &IndexedRun| -> (x: bool)
        ensures
            x == newest_first()(*a, *b),
        {
            b.entry.created_at.is_before(&a.entry.created_at) || (a.entry.created_at
                == b.entry.created_at && text_less(a.id.as_str(), b.id.as_str()))
        };
    proof {
        lemma_newest_first();
    }
    sort_stable(list, less, Ghost(newest_first()))
}

fn copy_entries(entries: &Vec<IndexedRun>) -> (r: Vec<IndexedRun>)
    ensures
        r@ == entries@,
{
    let mut out: Vec<IndexedRun> = Vec::new();
    let mut i: usize = 0;
    while i < entries.len()
        invariant
            i <= entries@.len(),
            out@ == entries@.take(i as int),
        decreases entries@.len() - i,
    {
        out.push(copy_indexed(&entries[i]));
        assert(out@ =~= entries@.take(i + 1));
        i += 1;
    }
    assert(out@ =~= entries@);
    out
}

/// The first `limit` items, or all where there is no limit.
pub open spec fn limited<T>(items: Seq<T>, limit: Option<usize>) -> Seq<T> {
    match limit {
        Some(n) => if n < items.len() {
            items.take(n as int)
        } else {
            items
        },
        None => items,
    }
}

/// The runs that a listing shows, newest first.
pub fn listed_runs(index: &AutomationRunIndex, limit: Option<usize>) -> (r: Vec<IndexedRun>)
    ensures
        exists|all: Seq<IndexedRun>| #[trigger]
            is_sorted_from(index.entries@, all, newest_first()) && r@ == limited(all, limit),
{
    let mut sorted = sort_newest_first(copy_entries(&index.entries));
    let ghost all = sorted@;
    assert(is_sorted_from(index.entries@, all, newest_first()));
    if let Some(n) = limit {
        if n < sorted.len() {
            sorted.truncate(n);
        }
    }
    assert(sorted@ =~= limited(all, limit));
    sorted
}

// Building -------------------------------------------------------------------
/// The last of `runs` that has identifier `id`.
pub open spec fn last_run(runs: Seq<AutomationRunRecord>, id: Seq<char>) -> Option<
    AutomationRunRecord,
>
    decreases runs.len(),
{
    if runs.len() == 0 {
        None
    } else if runs.last().id@ == id {
        Some(runs.last())
    } else {
        last_run(runs.drop_last(), id)
    }
}

/// What an index of `runs` says of the run `id`.
pub open spec fn indexed_entry(runs: Seq<AutomationRunRecord>, id: Seq<char>) -> Option<
    AutomationRunIndexEntry,
> {
    match last_run(runs, id) {
        Some(run) => Some(AutomationRunIndexEntry::of_run(run)),
        None => None,
    }
}

/// The index of the runs that were read.
pub fn build_index(automation_id: &str, runs: &Vec<AutomationRunRecord>) -> (r: AutomationRunIndex)
    ensures
        r.wf(),
        r.schema_version == CURRENT_RUN_INDEX_SCHEMA_VERSION,
        r.automation_id@ == automation_id@,
        r.authority_generation.modified_secs == 0 && r.authority_generation.modified_nanos == 0,
        r.latest_terminal_at == latest_terminal(r.entries@),
        forall|id: Seq<char>| #[trigger] r.entry(id) == indexed_entry(runs@, id),
{
    let mut index = AutomationRunIndex::empty(automation_id);
    let mut i: usize = 0;
    assert(runs@.take(0) =~= Seq::empty());
    assert forall|id: Seq<char>| #[trigger] index.entry(id) == indexed_entry(runs@.take(0), id) by {}
    while i < runs.len()
        invariant
            i <= runs@.len(),
            index.wf(),
            index.schema_version == CURRENT_RUN_INDEX_SCHEMA_VERSION,
            index.automation_id@ == automation_id@,
            index.authority_generation.modified_secs == 0,
            index.authority_generation.modified_nanos == 0,
            forall|id: Seq<char>| #[trigger]
                index.entry(id) == indexed_entry(runs@.take(i as int), id),
        decreases runs@.len() - i,
    {
        proof {
            assert(runs@.take(i + 1).drop_last() =~= runs@.take(i as int));
        }
        let run = &runs[i];
        let ghost before = index;
        index.put(copy_text(run.id.as_str()), AutomationRunIndexEntry::from_run(run));
        assert forall|id: Seq<char>| #[trigger]
            index.entry(id) == indexed_entry(runs@.take(i + 1), id) by {
            assert(before.entry(id) == indexed_entry(runs@.take(i as int), id));
        }
        i += 1;
    }
    assert(runs@.take(runs@.len() as int) =~= runs@);
    let ghost filled = index;
    refresh_latest_terminal_at(&mut index);
    assert forall|id: Seq<char>| #[trigger] index.entry(id) == indexed_entry(runs@, id) by {
        assert(filled.entry(id) == indexed_entry(runs@, id));
    }
    index
}

/// The index once the removed runs have been taken out.
pub open spec fn is_thinned(
    old: AutomationRunIndex,
    removed: Seq<Seq<char>>,
    new: AutomationRunIndex,
) -> bool {
    &&& new.wf()
    &&& new == (AutomationRunIndex {
        entries: new.entries,
        latest_terminal_at: new.latest_terminal_at,
        ..old
    })
    &&& forall|id: Seq<char>|
        #![trigger new.entry(id)]
        new.entry(id) == if removed.contains(id) {
            None
        } else {
            old.entry(id)
        }
    &&& new.latest_terminal_at == latest_terminal(new.entries@)
}

/// Takes the removed runs out of an index.
pub fn thin_index(index: AutomationRunIndex, removed: &Vec<String>) -> (r: AutomationRunIndex)
    requires
        index.wf(),
    ensures
        is_thinned(index, texts(removed@), r),
{
    let mut out = index;
    let ghost ids = texts(removed@);
    let mut i: usize = 0;
    while i < removed.len()
        invariant
            i <= removed@.len(),
            ids == texts(removed@),
            out.wf(),
            out == (AutomationRunIndex { entries: out.entries, ..index }),
            forall|id: Seq<char>|
                #![trigger out.entry(id)]
                out.entry(id) == if ids.take(i as int).contains(id) {
                    None
                } else {
                    index.entry(id)
                },
        decreases removed@.len() - i,
    {
        let ghost before = out;
        out.remove(removed[i].as_str());
        proof {
            let name = ids[i as int];
            let done = ids.take(i as int);
            let more = ids.take(i + 1);
            assert(more == done.push(name));
            assert forall|id: Seq<char>|
                #![trigger out.entry(id)]
                out.entry(id) == if more.contains(id) {
                    None
                } else {
                    index.entry(id)
                } by {
                if id == name {
                    assert(more[i as int] == id);
                } else {
                    assert(out.entry(id) == before.entry(id));
                    if done.contains(id) {
                        let k = choose|k: int| 0 <= k < done.len() && done[k] == id;
                        assert(more[k] == id);
                    }
                    if more.contains(id) {
                        let k = choose|k: int| 0 <= k < more.len() && more[k] == id;
                        assert(done[k] == id);
                    }
                }
            }
        }
        i += 1;
    }
    assert(ids.take(i as int) == ids);
    let ghost thinned = out;
    refresh_latest_terminal_at(&mut out);
    assert forall|id: Seq<char>| #[trigger] out.entry(id) == thinned.entry(id) by {}
    out
}

// Retention ------------------------------------------------------------------
/// What is known of the journal records of an automation.
#[derive(Debug)]
pub enum PendingScan {
    /// The journal could not be read.
    Unreadable,
    /// A record of the journal is not valid.
    Blocked,
    /// The identifiers of the runs that the journal holds.
    Runs(Vec<String>),
}

/// The finished runs of an index, in order.
pub open spec fn finished(entries: Seq<IndexedRun>) -> Seq<IndexedRun>
    decreases entries.len(),
{
    if entries.len() == 0 {
        Seq::empty()
    } else {
        let before = finished(entries.drop_last());
        if entries.last().entry.status.terminal() {
            before.push(entries.last())
        } else {
            before
        }
    }
}

/// The finished runs beyond the newest `max`, newest first.
pub open spec fn are_surplus(entries: Seq<IndexedRun>, max: usize, ids: Seq<Seq<char>>) -> bool {
    let done = finished(entries);
    if done.len() <= max {
        ids.len() == 0
    } else {
        exists|all: Seq<IndexedRun>| #[trigger]
            is_sorted_from(done, all, newest_first()) && ids == all.skip(max as int).map_values(
                |run: IndexedRun| run.id@,
            )
    }
}

fn find_finished(entries: &Vec<IndexedRun>) -> (r: Vec<IndexedRun>)
    ensures
        r@ == finished(entries@),
{
    let mut out: Vec<IndexedRun> = Vec::new();
    let mut i: usize = 0;
    assert(entries@.take(0) =~= Seq::empty());
    while i < entries.len()
        invariant
            i <= entries@.len(),
            out@ == finished(entries@.take(i as int)),
        decreases entries@.len() - i,
    {
        proof {
            assert(entries@.take(i + 1).drop_last() =~= entries@.take(i as int));
        }
        if is_terminal_run_status(entries[i].entry.status) {
            out.push(copy_indexed(&entries[i]));
        }
        i += 1;
    }
    assert(entries@.take(entries@.len() as int) =~= entries@);
    out
}

/// The identifiers of the finished runs beyond the newest `max`, newest first.
pub fn surplus_runs(index: &AutomationRunIndex, max: usize) -> (r: Vec<String>)
    ensures
        are_surplus(index.entries@, max, texts(r@)),
{
    let done = find_finished(&index.entries);
    let mut out: Vec<String> = Vec::new();
    if done.len() <= max {
        return out;
    }
    let ghost list = done@;
    let sorted = sort_newest_first(done);
    proof {
        crate::order::sorting_keeps_the_items(list, sorted@, newest_first());
    }
    let ghost want = sorted@.skip(max as int).map_values(|run: IndexedRun| run.id@);
    let mut i: usize = max;
    while i < sorted.len()
        invariant
            max <= i <= sorted@.len(),
            out@.len() == i - max,
            forall|k: int| 0 <= k < out@.len() ==> (#[trigger] out@[k])@ == sorted@[k + max].id@,
        decreases sorted@.len() - i,
    {
        out.push(copy_text(sorted[i].id.as_str()));
        i += 1;
    }
    assert(texts(out@) =~= want);
    out
}

/// The runs that a host is asked about: the surplus that the journal does not hold.
pub open spec fn kept_out(ids: Seq<Seq<char>>, held: Seq<Seq<char>>) -> Seq<Seq<char>> {
    ids.filter(|id: Seq<char>| !held.contains(id))
}

/// Drops from `ids` what is in `held`.
pub fn without(ids: &Vec<String>, held: &Vec<String>) -> (r: Vec<String>)
    ensures
        texts(r@) == kept_out(texts(ids@), texts(held@)),
{
    let mut out: Vec<String> = Vec::new();
    let ghost keep = |id: Seq<char>| !texts(held@).contains(id);
    let ghost all = texts(ids@);
    let mut i: usize = 0;
    proof {
        reveal(Seq::filter);
        assert(all.take(0).filter(keep) =~= Seq::empty());
        assert(texts(out@) =~= Seq::empty());
    }
    while i < ids.len()
        invariant
            i <= ids@.len(),
            all == texts(ids@),
            keep == (|id: Seq<char>| !texts(held@).contains(id)),
            texts(out@) == all.take(i as int).filter(keep),
        decreases ids@.len() - i,
    {
        proof {
            reveal(Seq::filter);
            assert(all.take(i + 1).drop_last() =~= all.take(i as int));
            assert(all.take(i + 1).last() == ids@[i as int]@);
        }
        if !contains_text(held, ids[i].as_str()) {
            let ghost before = out@;
            out.push(copy_text(ids[i].as_str()));
            assert(texts(out@) =~= texts(before).push(ids@[i as int]@));
        }
        i += 1;
    }
    assert(all.take(all.len() as int) =~= all);
    out
}

} // verus!
