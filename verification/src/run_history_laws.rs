//! What the index of runs says, what a listing shows, and which runs are kept, one run at a time.
use vstd::prelude::*;
use vstd::string::*;

use crate::automation::{AutomationRunRecord, AutomationRunStatus};
use crate::order::{arranges, is_sorted_from};
use crate::pending::run_fault;
use crate::protection::{
    first_blocked, owners_fault, some_journal_has, some_record_has, some_run_has, JournalScan,
};
use crate::retention::{
    GuardAnswer, RetentionAction, RetentionEvent, RetentionMove, RetentionStage,
};
use crate::run_index::{
    are_surplus, entries_fault, entry_fault, entry_matches, entry_of, finished, index_fault,
    indexed_entry, is_thinned, is_unsettled, kept_out, last_run, latest_terminal, limited,
    newest_first, unsettled, usable_index, AutomationRunIndex, AutomationRunIndexEntry, IndexedRun,
    PendingScan, RunAuthorityGeneration, DEFAULT_MAX_UNPROTECTED_TERMINAL_RUNS,
};
use crate::run_save::{is_entered, RunSaveAction, RunSaveEvent, RunSaveMove, RunSaveStage};
use crate::storage_id::is_safe_id;
use crate::text::{lex_less, texts};

verus! {

// The index ------------------------------------------------------------------
/// A run is over when it is completed, failed or canceled.
pub proof fn runs_are_over_in_three_ways(status: AutomationRunStatus)
    ensures
        status.terminal() <==> status is Completed || status is Failed || status is Canceled,
        status is Queued || status is Running ==> !status.terminal(),
{
}

/// The index says of a run when it was created, how it stands and, once it is over, when it ended.
pub proof fn entries_tell_of_their_run(run: AutomationRunRecord)
    ensures
        AutomationRunIndexEntry::of_run(run).created_at == run.created_at,
        AutomationRunIndexEntry::of_run(run).status == run.status,
        run.status is Queued || run.status is Running ==> AutomationRunIndexEntry::of_run(
            run,
        ).terminal_at is None,
        run.status is Completed || run.status is Failed || run.status is Canceled
            ==> AutomationRunIndexEntry::of_run(run).terminal_at == run.ended_at,
{
}

/// What the index says of a run is what it says last, and nothing where it does not list it.
pub proof fn entries_are_found_under_their_run(
    entries: Seq<IndexedRun>,
    last: IndexedRun,
    id: Seq<char>,
)
    ensures
        entry_of(Seq::empty(), id) is None,
        entry_of(entries.push(last), id) == (if last.id@ == id {
            Some(last.entry)
        } else {
            entry_of(entries, id)
        }),
{
    assert(entries.push(last).drop_last() =~= entries);
}

/// The noted end is that of a run that is over; no run that is over ended after it, and there is
/// none only where no run that is over has an end.
pub proof fn the_noted_end_is_the_last(entries: Seq<IndexedRun>)
    ensures
        latest_terminal(entries) matches Some(t) ==> exists|i: int|
            0 <= i < entries.len() && (#[trigger] entries[i]).entry.terminal_at == Some(t) && (
            entries[i].entry.status is Completed || entries[i].entry.status is Failed
                || entries[i].entry.status is Canceled),
        forall|i: int|
            0 <= i < entries.len() && ((#[trigger] entries[i]).entry.status is Completed
                || entries[i].entry.status is Failed || entries[i].entry.status is Canceled) ==> (
            entries[i].entry.terminal_at matches Some(t) ==> (latest_terminal(
                entries,
            ) matches Some(l) && (t.secs < l.secs || (t.secs == l.secs && t.nanos <= l.nanos)))),
    decreases entries.len(),
{
    if entries.len() > 0 {
        let init = entries.drop_last();
        let n = entries.len() - 1;
        the_noted_end_is_the_last(init);
        let before = latest_terminal(init);
        let all = latest_terminal(entries);
        if all is Some {
            if all == before {
                let t = all->Some_0;
                let i = choose|i: int|
                    0 <= i < init.len() && (#[trigger] init[i]).entry.terminal_at == Some(t) && (
                    init[i].entry.status is Completed || init[i].entry.status is Failed
                        || init[i].entry.status is Canceled);
                assert(entries[i] == init[i]);
            } else {
                assert(entries[n].entry.terminal_at == all);
            }
        }
        assert forall|i: int|
            0 <= i < entries.len() && ((#[trigger] entries[i]).entry.status is Completed
                || entries[i].entry.status is Failed || entries[i].entry.status is Canceled)
            implies (entries[i].entry.terminal_at matches Some(t) ==> (all matches Some(l) && (
        t.secs < l.secs || (t.secs == l.secs && t.nanos <= l.nanos)))) by {
            if i < n {
                assert(init[i] == entries[i]);
            }
        }
    }
}

proof fn lemma_entries_fault(entries: Seq<IndexedRun>)
    ensures
        entries_fault(entries) is None <==> forall|i: int|
            0 <= i < entries.len() ==> entry_fault(#[trigger] entries[i]) is None,
    decreases entries.len(),
{
    if entries.len() > 0 {
        let init = entries.drop_last();
        lemma_entries_fault(init);
        let n = entries.len() - 1;
        if entries_fault(entries) is None {
            assert forall|i: int| 0 <= i < entries.len() implies entry_fault(
                #[trigger] entries[i],
            ) is None by {
                if i < n {
                    assert(init[i] == entries[i]);
                }
            }
        }
        if forall|i: int| 0 <= i < entries.len() ==> entry_fault(#[trigger] entries[i]) is None {
            assert forall|i: int| 0 <= i < init.len() implies entry_fault(#[trigger] init[i])
                is None by {
                assert(init[i] == entries[i]);
            }
            assert(entry_fault(entries[n]) is None);
        }
    }
}

/// An index may be used for an automation just where its layout is known, it is the automation's
/// own, each of its runs may name a file, no run that is not over has an end, and the noted end is
/// the last one.
pub proof fn sound_indexes_are_whole(index: AutomationRunIndex, automation_id: Seq<char>)
    ensures
        index_fault(index, automation_id) is None <==> {
            &&& index.schema_version == 1
            &&& automation_id.len() > 0 && is_safe_id(automation_id)
            &&& index.automation_id@ == automation_id
            &&& forall|i: int|
                #![trigger index.entries@[i]]
                0 <= i < index.entries@.len() ==> index.entries@[i].id@.len() > 0 && is_safe_id(
                    index.entries@[i].id@,
                ) && (index.entries@[i].entry.status is Queued || index.entries@[i].entry.status
                    is Running ==> index.entries@[i].entry.terminal_at is None)
            &&& index.latest_terminal_at == latest_terminal(index.entries@)
        },
{
    lemma_entries_fault(index.entries@);
    if index_fault(index, automation_id) is None {
        assert forall|i: int|
            #![trigger index.entries@[i]]
            0 <= i < index.entries@.len() implies index.entries@[i].id@.len() > 0 && is_safe_id(
            index.entries@[i].id@,
        ) && (index.entries@[i].entry.status is Queued || index.entries@[i].entry.status is Running
            ==> index.entries@[i].entry.terminal_at is None) by {
            assert(entry_fault(index.entries@[i]) is None);
        }
    }
}

/// A stored index is used as it is, and only where it is not marked as out of date, is sound and
/// is as old as the records are.
pub proof fn only_sound_indexes_are_used(
    dirty: bool,
    stored: Option<AutomationRunIndex>,
    automation_id: Seq<char>,
    generation: RunAuthorityGeneration,
)
    ensures
        dirty ==> usable_index(dirty, stored, automation_id, generation) is None,
        stored is None ==> usable_index(dirty, stored, automation_id, generation) is None,
        stored matches Some(index) ==> {
            &&& index.authority_generation.modified_secs != generation.modified_secs
                || index.authority_generation.modified_nanos != generation.modified_nanos
                || index_fault(index, automation_id) is Some ==> usable_index(
                dirty,
                stored,
                automation_id,
                generation,
            ) is None
            &&& !dirty && index_fault(index, automation_id) is None
                && index.authority_generation.modified_secs == generation.modified_secs
                && index.authority_generation.modified_nanos == generation.modified_nanos
                ==> usable_index(dirty, stored, automation_id, generation) == Some(index)
        },
{
}

/// A record agrees with the index where both say the same of its creation, its status and, once it
/// is over, its end.
pub proof fn records_agree_with_what_is_said_of_them(
    run: AutomationRunRecord,
    entry: AutomationRunIndexEntry,
)
    ensures
        entry_matches(run, entry) <==> run.created_at == entry.created_at && run.status
            == entry.status && (run.status is Queued || run.status is Running || run.ended_at
            == entry.terminal_at),
        entry_matches(run, AutomationRunIndexEntry::of_run(run)),
        is_unsettled(entry) <==> entry.status is Queued || entry.status is Running
            || entry.terminal_at is None,
{
}

proof fn lemma_pushed<T>(s: Seq<T>, last: T, x: T)
    ensures
        s.push(last).contains(x) <==> s.contains(x) || x == last,
{
    if s.contains(x) {
        let i = choose|i: int| 0 <= i < s.len() && s[i] == x;
        assert(s.push(last)[i] == x);
    }
    assert(s.push(last)[s.len() as int] == last);
    if s.push(last).contains(x) {
        let i = choose|i: int| 0 <= i < s.push(last).len() && s.push(last)[i] == x;
        if i < s.len() {
            assert(s[i] == x);
        }
    }
}

/// What is looked at again is every run that is not over or has no end, and what counts as
/// finished is every run that is over.
pub proof fn open_and_finished_runs(entries: Seq<IndexedRun>, run: IndexedRun)
    ensures
        unsettled(entries).contains(run) <==> entries.contains(run) && (run.entry.status is Queued
            || run.entry.status is Running || run.entry.terminal_at is None),
        finished(entries).contains(run) <==> entries.contains(run) && (run.entry.status is Completed
            || run.entry.status is Failed || run.entry.status is Canceled),
        finished(entries).len() <= entries.len(),
    decreases entries.len(),
{
    if entries.len() > 0 {
        let init = entries.drop_last();
        open_and_finished_runs(init, run);
        assert(init.push(entries.last()) =~= entries);
        lemma_pushed(init, entries.last(), run);
        lemma_pushed(unsettled(init), entries.last(), run);
        lemma_pushed(finished(init), entries.last(), run);
    }
}

// Listings -------------------------------------------------------------------
/// A listing shows the runs that were created last first, by identifier where two were created at
/// one time; a limit cuts it off at the end.
pub proof fn listed_runs_are_newest_first(
    entries: Seq<IndexedRun>,
    all: Seq<IndexedRun>,
    limit: Option<usize>,
    i: int,
    j: int,
)
    requires
        is_sorted_from(entries, all, newest_first()),
        0 <= i < j < all.len(),
    ensures
        ({
            let a = all[i].entry.created_at;
            let b = all[j].entry.created_at;
            &&& a.secs > b.secs || (a.secs == b.secs && a.nanos >= b.nanos)
            &&& a == b ==> !lex_less(all[j].id@, all[i].id@)
        }),
        limit is None ==> limited(all, limit) == all,
        limit matches Some(n) ==> limited(all, limit).len() == (if n < all.len() {
            n as nat
        } else {
            all.len()
        }) && (i < n ==> limited(all, limit)[i] == all[i]),
        all.len() == entries.len(),
{
    let p = choose|p: Seq<int>| #[trigger] arranges(p, entries, all, newest_first());
    assert(p[i] != p[j]);
    assert(!(newest_first())(all[j], all[i]));
}

/// What an index of runs says of one is what the last of its records says.
pub proof fn the_last_record_of_a_run_counts(
    runs: Seq<AutomationRunRecord>,
    run: AutomationRunRecord,
    id: Seq<char>,
)
    ensures
        last_run(Seq::empty(), id) is None,
        last_run(runs.push(run), id) == (if run.id@ == id {
            Some(run)
        } else {
            last_run(runs, id)
        }),
        indexed_entry(runs.push(run), run.id@) == Some(AutomationRunIndexEntry::of_run(run)),
        id != run.id@ ==> indexed_entry(runs.push(run), id) == indexed_entry(runs, id),
{
    assert(runs.push(run).drop_last() =~= runs);
}

// What is kept ---------------------------------------------------------------
/// Runs that are removed are no longer listed, and all others stay as they were.
pub proof fn removed_runs_are_listed_no_more(
    old: AutomationRunIndex,
    removed: Seq<Seq<char>>,
    new: AutomationRunIndex,
    id: Seq<char>,
)
    requires
        is_thinned(old, removed, new),
    ensures
        removed.contains(id) ==> entry_of(new.entries@, id) is None,
        !removed.contains(id) ==> entry_of(new.entries@, id) == entry_of(old.entries@, id),
        new.automation_id == old.automation_id && new.schema_version == old.schema_version
            && new.authority_generation == old.authority_generation,
        new.latest_terminal_at == latest_terminal(new.entries@),
{
    assert(new.entry(id) == if removed.contains(id) {
        None
    } else {
        old.entry(id)
    });
}

/// Of the finished runs, those beyond the newest ones are surplus: as many as there are over the
/// number that is kept, and none where there are no more than that.
pub proof fn only_runs_over_the_number_are_surplus(
    entries: Seq<IndexedRun>,
    max: usize,
    ids: Seq<Seq<char>>,
)
    requires
        are_surplus(entries, max, ids),
    ensures
        finished(entries).len() <= max ==> ids.len() == 0,
        finished(entries).len() > max ==> ids.len() == finished(entries).len() - max,
        ids.len() > 0 ==> exists|all: Seq<IndexedRun>| #[trigger]
            is_sorted_from(finished(entries), all, newest_first()) && forall|i: int|
                0 <= i < ids.len() ==> #[trigger] ids[i] == all[max + i].id@,
{
    if finished(entries).len() > max {
        let all = choose|all: Seq<IndexedRun>| #[trigger]
            is_sorted_from(finished(entries), all, newest_first()) && ids == all.skip(
                max as int,
            ).map_values(|run: IndexedRun| run.id@);
        let p = choose|p: Seq<int>| #[trigger] arranges(p, finished(entries), all, newest_first());
        assert forall|i: int| 0 <= i < ids.len() implies #[trigger] ids[i] == all[max + i].id@ by {}
    }
}

proof fn lemma_kept_out(ids: Seq<Seq<char>>, keep: spec_fn(Seq<char>) -> bool, id: Seq<char>)
    ensures
        ids.filter(keep).contains(id) <==> ids.contains(id) && keep(id),
    decreases ids.len(),
{
    reveal(Seq::filter);
    if ids.len() > 0 {
        let init = ids.drop_last();
        lemma_kept_out(init, keep, id);
        assert(init.push(ids.last()) =~= ids);
        lemma_pushed(init, ids.last(), id);
        lemma_pushed(init.filter(keep), ids.last(), id);
    }
}

/// What the journal holds is kept out.
pub proof fn what_is_held_is_kept_out(ids: Seq<Seq<char>>, held: Seq<Seq<char>>, id: Seq<char>)
    ensures
        kept_out(ids, held).contains(id) <==> ids.contains(id) && !held.contains(id),
{
    lemma_kept_out(ids, |id: Seq<char>| !held.contains(id), id);
}

/// What follows each event in the removal of surplus runs: nothing is removed where there is no
/// surplus, where the journal cannot be read, or where the host cannot answer.
pub proof fn removals_take_one_course(s: RetentionMove)
    requires
        s.is_step(),
    ensures
        s.after.surplus == s.before.surplus && s.after.guarded == s.before.guarded,
        s.event is Begun ==> (if s.before.surplus@.len() == 0 {
            s.action matches RetentionAction::Finish { gone } && gone@.len() == 0
        } else {
            s.action is Scan
        }),
        s.event matches RetentionEvent::Scanned(scan) ==> {
            &&& scan !is Runs ==> (s.action matches RetentionAction::Finish { gone } && gone@.len()
                == 0)
            &&& scan matches PendingScan::Runs(held) ==> {
                let open = kept_out(texts(s.before.surplus@), texts(held@));
                &&& open.len() == 0 ==> (s.action matches RetentionAction::Finish { gone }
                    && gone@.len() == 0)
                &&& open.len() > 0 && s.before.guarded ==> (
                s.action matches RetentionAction::Ask { run_id } && run_id@ == open[0])
                &&& open.len() > 0 && !s.before.guarded ==> (
                s.action matches RetentionAction::Remove { run_id } && run_id@ == open[0])
            }
        },
        s.event == RetentionEvent::Answered(GuardAnswer::Unknown) ==> (
        s.action matches RetentionAction::Finish { gone } && gone@.len() == 0),
        s.event == RetentionEvent::Answered(GuardAnswer::Release) ==> (
        s.before.stage matches RetentionStage::Asking { open, released } && (open@.len() > 1 ==> (
        s.action matches RetentionAction::Ask { run_id } && run_id@ == open@[1]@)) && (open@.len()
            == 1 ==> (s.action matches RetentionAction::Remove { run_id } && run_id@ == (if released@.len()
            > 0 {
            released@[0]@
        } else {
            open@[0]@
        })))),
        s.event == RetentionEvent::Answered(GuardAnswer::Keep) ==> (
        s.before.stage matches RetentionStage::Asking { open, released } && (open@.len() > 1 ==> (
        s.action matches RetentionAction::Ask { run_id } && run_id@ == open@[1]@)) && (open@.len()
            == 1 && released@.len() > 0 ==> (s.action matches RetentionAction::Remove { run_id }
            && run_id@ == released@[0]@)) && (open@.len() == 1 && released@.len() == 0 ==> (
        s.action matches RetentionAction::Finish { gone } && gone@.len() == 0))),
        s.event matches RetentionEvent::Removed { gone: done } ==> (
        s.before.stage matches RetentionStage::Removing { doomed, gone } && (doomed@.len() > 1 ==> (
        s.action matches RetentionAction::Remove { run_id } && run_id@ == doomed@[1]@)) && (
        doomed@.len() == 1 ==> (s.action matches RetentionAction::Finish { gone: all } && texts(
            all@,
        ) == (if done {
            texts(gone@).push(doomed@[0]@)
        } else {
            texts(gone@)
        })))),
{
    match s.before.stage {
        RetentionStage::Asking { open, released } => {
            assert(texts(open@).len() == open@.len());
            assert(texts(released@).len() == released@.len());
            if open@.len() > 0 {
                assert(texts(open@)[0] == open@[0]@);
            }
            if open@.len() > 1 {
                assert(texts(open@).drop_first()[0] == open@[1]@);
            }
            if released@.len() > 0 {
                assert(texts(released@)[0] == released@[0]@);
                if open@.len() > 0 {
                    assert(texts(released@).push(texts(open@)[0])[0] == released@[0]@);
                }
            } else if open@.len() > 0 {
                assert(texts(released@).push(texts(open@)[0])[0] == open@[0]@);
            }
        },
        RetentionStage::Removing { doomed, gone } => {
            assert(texts(doomed@).len() == doomed@.len());
            if doomed@.len() > 0 {
                assert(texts(doomed@)[0] == doomed@[0]@);
            }
            if doomed@.len() > 1 {
                assert(texts(doomed@).drop_first()[0] == doomed@[1]@);
            }
        },
        _ => {},
    }
    if let RetentionAction::Finish { gone } = s.action {
        assert(texts(gone@).len() == gone@.len());
    }
}

/// What follows each event when a run is stored: a faulty record is refused at once, the index is
/// loaded and marked before the record is written, and a run that is over lets others be removed.
pub proof fn runs_are_stored_in_order(s: RunSaveMove)
    requires
        s.is_step(),
    ensures
        s.after.run == s.before.run,
        s.event is Begun ==> match run_fault(
            s.before.run,
            s.before.run.automation_id@,
            s.before.run.id@,
        ) {
            Some(words) => s.action matches RunSaveAction::Fail(e) && e@ == words,
            None => s.action is LoadIndex,
        },
        s.event is IndexLoaded ==> s.action is MarkDirty,
        s.event matches RunSaveEvent::Marked(Ok(_)) ==> s.action is WriteRun,
        s.event matches RunSaveEvent::Marked(Err(why)) ==> (s.action matches RunSaveAction::Fail(e)
            && e@ == why@),
        s.event matches RunSaveEvent::Written(Err(why)) ==> (s.action matches RunSaveAction::Fail(
            e,
        ) && e@ == why@),
        s.event matches RunSaveEvent::Written(Ok(_)) ==> (
        s.before.stage matches RunSaveStage::Writing { index } && {
            &&& index is None ==> s.action is RebuildIndex
            &&& index is Some && (s.before.run.status is Completed || s.before.run.status is Failed
                || s.before.run.status is Canceled) ==> s.action is Retain
            &&& index is Some && (s.before.run.status is Queued || s.before.run.status is Running)
                ==> s.action is SaveIndex
        }),
        s.event is Retained ==> s.action is SaveIndex,
        s.event is IndexSaved || s.event is Rebuilt ==> s.action is Finish,
{
}

/// A run that is stored is listed with what its record says, and every other stays as it was.
pub proof fn stored_runs_are_listed(
    old: AutomationRunIndex,
    run: AutomationRunRecord,
    new: AutomationRunIndex,
    id: Seq<char>,
)
    requires
        is_entered(old, run, new),
    ensures
        entry_of(new.entries@, run.id@) matches Some(entry) && entry.created_at == run.created_at
            && entry.status == run.status && (run.status is Completed || run.status is Failed
            || run.status is Canceled ==> entry.terminal_at == run.ended_at),
        id != run.id@ ==> entry_of(new.entries@, id) == entry_of(old.entries@, id),
        new.automation_id == old.automation_id && new.schema_version == old.schema_version
            && new.authority_generation == old.authority_generation,
{
    assert(new.entry(run.id@) is Some);
    if id != run.id@ {
        assert(new.entry(id) == old.entry(id));
    }
}

/// What is wrong with a run's record that is stored under two names: a layout that is too new, a
/// name that may not name a file, or names that are not its own.
pub proof fn sound_runs_stand_under_their_names(
    run: AutomationRunRecord,
    automation_id: Seq<char>,
    run_id: Seq<char>,
)
    ensures
        run_fault(run, automation_id, run_id) is None <==> run.schema_version <= 1
            && automation_id.len() > 0 && is_safe_id(automation_id) && run_id.len() > 0
            && is_safe_id(run_id) && run.automation_id@ == automation_id && run.id@ == run_id,
{
}

// Protection -----------------------------------------------------------------
/// A task is protected by a run that has it, and by a journal record whose run has it.
pub proof fn runs_and_journals_protect_their_tasks(
    runs: Seq<AutomationRunRecord>,
    scans: Seq<JournalScan>,
    i: int,
    k: int,
    task: String,
)
    ensures
        0 <= i < runs.len() && runs[i].task_id == Some(task) ==> some_run_has(runs, task@),
        0 <= i < scans.len() && 0 <= k < scans[i].records@.len()
            && scans[i].records@[k].run.task_id == Some(task) ==> some_journal_has(scans, task@),
        some_run_has(runs, task@) ==> exists|j: int|
            0 <= j < runs.len() && ((#[trigger] runs[j]).task_id matches Some(t) && t@ == task@),
{
    if 0 <= i < scans.len() && 0 <= k < scans[i].records@.len()
        && scans[i].records@[k].run.task_id == Some(task) {
        assert(some_record_has(scans[i].records@, task@));
    }
    if some_run_has(runs, task@) {
        let j = choose|j: int|
            0 <= j < runs.len() && crate::text::text_opt((#[trigger] runs[j]).task_id) == Some(
                task@,
            );
        assert(runs[j].task_id is Some);
    }
}

/// The journal that stands in the way is the first that cannot be trusted.
pub proof fn the_first_blocked_journal_is_named(scans: Seq<JournalScan>)
    ensures
        first_blocked(scans) is None <==> forall|i: int|
            0 <= i < scans.len() ==> !(#[trigger] scans[i]).blocked,
        first_blocked(scans) matches Some(id) ==> exists|i: int|
            0 <= i < scans.len() && (#[trigger] scans[i]).blocked && scans[i].automation_id@ == id
                && forall|j: int| 0 <= j < i ==> !(#[trigger] scans[j]).blocked,
    decreases scans.len(),
{
    if scans.len() > 0 && !scans[0].blocked {
        let rest = scans.drop_first();
        the_first_blocked_journal_is_named(rest);
        if first_blocked(rest) is None {
            assert forall|i: int| 0 <= i < scans.len() implies !(#[trigger] scans[i]).blocked by {
                if i > 0 {
                    assert(rest[i - 1] == scans[i]);
                }
            }
        } else {
            let id = first_blocked(rest)->Some_0;
            let i = choose|i: int|
                0 <= i < rest.len() && (#[trigger] rest[i]).blocked && rest[i].automation_id@ == id
                    && forall|j: int| 0 <= j < i ==> !(#[trigger] rest[j]).blocked;
            assert(scans[i + 1] == rest[i]);
            assert forall|j: int| 0 <= j < i + 1 implies !(#[trigger] scans[j]).blocked by {
                if j > 0 {
                    assert(rest[j - 1] == scans[j]);
                }
            }
        }
    } else if scans.len() > 0 {
        assert(scans[0].blocked);
    }
}

/// Directories count as automations' where each of their names may name a file.
pub proof fn owners_have_safe_names(names: Seq<Seq<char>>)
    ensures
        owners_fault(names) is None <==> forall|i: int|
            0 <= i < names.len() ==> (#[trigger] names[i]).len() > 0 && is_safe_id(names[i]),
    decreases names.len(),
{
    if names.len() > 0 {
        let rest = names.drop_first();
        owners_have_safe_names(rest);
        if owners_fault(names) is None {
            assert forall|i: int| 0 <= i < names.len() implies (#[trigger] names[i]).len() > 0
                && is_safe_id(names[i]) by {
                if i > 0 {
                    assert(rest[i - 1] == names[i]);
                }
            }
        }
        if forall|i: int|
            0 <= i < names.len() ==> (#[trigger] names[i]).len() > 0 && is_safe_id(names[i]) {
            assert forall|i: int| 0 <= i < rest.len() implies (#[trigger] rest[i]).len() > 0
                && is_safe_id(rest[i]) by {
                assert(rest[i] == names[i + 1]);
            }
            assert(names[0].len() > 0);
        }
    }
}

/// How many finished runs are kept.
pub proof fn a_thousand_finished_runs_are_kept()
    ensures
        DEFAULT_MAX_UNPROTECTED_TERMINAL_RUNS == 1_000,
{
}

/// The index goes along with the run that is stored: it is kept until the record is written, then
/// knows the run, and then no longer the runs that were removed.
pub proof fn the_index_goes_along_with_its_run(s: RunSaveMove)
    requires
        s.is_step(),
    ensures
        s.event matches RunSaveEvent::IndexLoaded(index) ==> s.after.stage == (
        RunSaveStage::Marking { index }),
        s.event matches RunSaveEvent::Marked(Ok(_)) ==> (
        s.before.stage matches RunSaveStage::Marking { index } && s.after.stage == (
        RunSaveStage::Writing { index })),
        s.event matches RunSaveEvent::Written(Ok(_)) ==> (
        s.before.stage matches RunSaveStage::Writing { index: Some(old) } ==> match s.after.stage {
            RunSaveStage::Retaining { index } => is_entered(old, s.before.run, index),
            RunSaveStage::SavingIndex { index } => is_entered(old, s.before.run, index)
                && index.latest_terminal_at == latest_terminal(index.entries@),
            _ => false,
        }),
        s.event matches RunSaveEvent::Retained { removed } ==> (
        s.before.stage matches RunSaveStage::Retaining { index: old } && (
        s.after.stage matches RunSaveStage::SavingIndex { index } && is_thinned(
            old,
            texts(removed@),
            index,
        ))),
        s.after.stage is Done <==> s.action is Finish || s.action is Fail,
{
}

/// What the journal holds is noted when it is read, and not changed after.
pub proof fn what_the_journal_holds_is_noted(s: RetentionMove)
    requires
        s.is_step(),
    ensures
        s.event matches RetentionEvent::Scanned(PendingScan::Runs(held)) ==> s.after.held == held,
        !(s.event matches RetentionEvent::Scanned(PendingScan::Runs(_))) ==> s.after.held
            == s.before.held,
{
}

} // verus!
