//! What holds of every index of runs.
use vstd::prelude::*;

use crate::automation::AutomationRunRecord;
use crate::order::{arranges, is_sorted_from, sorting_keeps_the_items};
use crate::pending::run_fault;
use crate::run_index::{
    are_surplus, entries_fault, entry_fault, entry_of, finished, ids_rise, index_fault,
    indexed_entry, last_run, latest_terminal, lemma_entry_at, limited, newest_first,
    AutomationRunIndex, IndexedRun, CURRENT_RUN_INDEX_SCHEMA_VERSION,
};
use crate::storage_id::storage_id_fault;
use crate::text::{lex_less, lex_less_is_a_strict_order};

verus! {

/// The noted end is the latest of the finished runs' ends.
pub proof fn latest_terminal_is_the_latest(entries: Seq<IndexedRun>)
    ensures
        forall|i: int|
            #![trigger entries[i]]
            0 <= i < entries.len() && entries[i].entry.status.terminal()
                && entries[i].entry.terminal_at is Some ==> latest_terminal(entries) is Some
                && entries[i].entry.terminal_at->Some_0.at_or_before(
                latest_terminal(entries)->Some_0,
            ),
        latest_terminal(entries) is Some ==> exists|i: int|
            0 <= i < entries.len() && (#[trigger] entries[i]).entry.status.terminal()
                && entries[i].entry.terminal_at == latest_terminal(entries),
    decreases entries.len(),
{
    if entries.len() > 0 {
        let init = entries.drop_last();
        latest_terminal_is_the_latest(init);
        let last = entries.len() - 1;
        assert forall|i: int|
            #![trigger entries[i]]
            0 <= i < entries.len() && entries[i].entry.status.terminal()
                && entries[i].entry.terminal_at is Some implies latest_terminal(entries) is Some
            && entries[i].entry.terminal_at->Some_0.at_or_before(
            latest_terminal(entries)->Some_0,
        ) by {
            if i < last {
                assert(init[i] == entries[i]);
            }
        }
        if latest_terminal(entries) is Some {
            if entries[last].entry.status.terminal() && entries[last].entry.terminal_at
                == latest_terminal(entries) {
            } else {
                let i = choose|i: int|
                    0 <= i < init.len() && (#[trigger] init[i]).entry.status.terminal()
                        && init[i].entry.terminal_at == latest_terminal(init);
                assert(entries[i] == init[i]);
            }
        }
    }
}

proof fn lemma_no_entry_fault(entries: Seq<IndexedRun>)
    requires
        forall|i: int| 0 <= i < entries.len() ==> entry_fault(#[trigger] entries[i]) is None,
    ensures
        entries_fault(entries) is None,
    decreases entries.len(),
{
    if entries.len() > 0 {
        let init = entries.drop_last();
        assert forall|i: int| 0 <= i < init.len() implies entry_fault(#[trigger] init[i]) is None by {
            assert(init[i] == entries[i]);
        }
        lemma_no_entry_fault(init);
        assert(entry_fault(entries[entries.len() - 1]) is None);
    }
}

proof fn lemma_last_run_is_a_run(runs: Seq<AutomationRunRecord>, id: Seq<char>)
    ensures
        last_run(runs, id) matches Some(run) ==> runs.contains(run) && run.id@ == id,
    decreases runs.len(),
{
    if runs.len() > 0 {
        lemma_last_run_is_a_run(runs.drop_last(), id);
        if let Some(run) = last_run(runs, id) {
            if runs.last().id@ == id {
                assert(runs[runs.len() - 1] == run);
            } else {
                let init = runs.drop_last();
                let i = choose|i: int| 0 <= i < init.len() && init[i] == run;
                assert(runs[i] == run);
            }
        }
    }
}

/// An index of valid runs that was just built, or just refreshed, is valid.
pub proof fn rebuilt_indexes_are_valid(
    index: AutomationRunIndex,
    automation_id: Seq<char>,
    runs: Seq<AutomationRunRecord>,
)
    requires
        storage_id_fault("automation id"@, automation_id) is None,
        forall|i: int|
            0 <= i < runs.len() ==> run_fault(#[trigger] runs[i], automation_id, runs[i].id@) is None,
        index.wf(),
        index.schema_version == CURRENT_RUN_INDEX_SCHEMA_VERSION,
        index.automation_id@ == automation_id,
        index.latest_terminal_at == latest_terminal(index.entries@),
        forall|id: Seq<char>| #[trigger] index.entry(id) == indexed_entry(runs, id),
    ensures
        index_fault(index, automation_id) is None,
{
    let entries = index.entries@;
    assert forall|i: int| 0 <= i < entries.len() implies entry_fault(#[trigger] entries[i]) is None by {
        let id = entries[i].id@;
        lemma_entry_at(entries, i);
        assert(index.entry(id) == indexed_entry(runs, id));
        lemma_last_run_is_a_run(runs, id);
        let run = last_run(runs, id)->Some_0;
        let k = choose|k: int| 0 <= k < runs.len() && runs[k] == run;
        assert(run_fault(runs[k], automation_id, runs[k].id@) is None);
    }
    lemma_no_entry_fault(entries);
}

proof fn lemma_finished(entries: Seq<IndexedRun>)
    ensures
        forall|i: int|
            0 <= i < finished(entries).len() ==> (#[trigger] finished(entries)[i]).entry.status.terminal()
                && entries.contains(finished(entries)[i]),
        ids_rise(entries) ==> ids_rise(finished(entries)),
        forall|run: IndexedRun|
            entries.contains(run) && run.entry.status.terminal() ==> #[trigger] finished(
                entries,
            ).contains(run),
    decreases entries.len(),
{
    if entries.len() > 0 {
        let init = entries.drop_last();
        let done = finished(entries);
        lemma_finished(init);
        assert forall|i: int| 0 <= i < done.len() implies (#[trigger] done[i]).entry.status.terminal()
            && entries.contains(done[i]) by {
            if i < finished(init).len() {
                assert(done[i] == finished(init)[i]);
                let k = choose|k: int| 0 <= k < init.len() && init[k] == done[i];
                assert(entries[k] == done[i]);
            } else {
                assert(entries[entries.len() - 1] == done[i]);
            }
        }
        if ids_rise(entries) {
            assert(ids_rise(init)) by {
                assert forall|i: int, j: int| 0 <= i < j < init.len() implies lex_less(
                    (#[trigger] init[i]).id@,
                    (#[trigger] init[j]).id@,
                ) by {
                    assert(lex_less(entries[i].id@, entries[j].id@));
                }
            }
            assert forall|i: int, j: int| 0 <= i < j < done.len() implies lex_less(
                (#[trigger] done[i]).id@,
                (#[trigger] done[j]).id@,
            ) by {
                let n = finished(init).len();
                if j < n {
                    assert(lex_less(finished(init)[i].id@, finished(init)[j].id@));
                } else {
                    assert(done[i] == finished(init)[i]);
                    let k = choose|k: int| 0 <= k < init.len() && init[k] == finished(init)[i];
                    assert(lex_less(entries[k].id@, entries[entries.len() - 1].id@));
                }
            }
        }
        assert forall|run: IndexedRun|
            entries.contains(run) && run.entry.status.terminal() implies #[trigger] done.contains(
            run,
        ) by {
            let k = choose|k: int| 0 <= k < entries.len() && entries[k] == run;
            if k < init.len() {
                assert(init[k] == run);
                assert(finished(init).contains(run));
                let j = choose|j: int| 0 <= j < finished(init).len() && finished(init)[j] == run;
                assert(done[j] == run);
            } else {
                assert(done[done.len() - 1] == run);
            }
        }
    }
}

/// In a sorted list of an index's runs an earlier place is a newer run, and no
/// identifier stands twice.
pub proof fn listing_is_newest_first(entries: Seq<IndexedRun>, all: Seq<IndexedRun>)
    requires
        ids_rise(entries),
        is_sorted_from(entries, all, newest_first()),
    ensures
        forall|i: int, j: int|
            0 <= i < j < all.len() ==> newest_first()(#[trigger] all[i], #[trigger] all[j])
                && all[i].id@ != all[j].id@,
{
    let before = newest_first();
    let p = choose|p: Seq<int>| #[trigger] arranges(p, entries, all, before);
    assert forall|i: int, j: int| 0 <= i < j < all.len() implies before(
        #[trigger] all[i],
        #[trigger] all[j],
    ) && all[i].id@ != all[j].id@ by {
        assert(p[i] != p[j]);
        let (a, b) = (entries[p[i]].id@, entries[p[j]].id@);
        if p[i] < p[j] {
            assert(lex_less(entries[p[i]].id@, entries[p[j]].id@));
        } else {
            assert(lex_less(entries[p[j]].id@, entries[p[i]].id@));
        }
        lex_less_is_a_strict_order(a, b, a);
        lex_less_is_a_strict_order(a, a, a);
        assert(!before(all[j], all[i]));
    }
}

/// A shorter listing is the start of a longer one.
pub proof fn shorter_listings_are_prefixes(all: Seq<IndexedRun>, short: usize, long: Option<usize>)
    requires
        long matches Some(n) ==> short <= n,
    ensures
        limited(all, Some(short)) == limited(limited(all, long), Some(short)),
{
    assert(limited(all, Some(short)) =~= limited(limited(all, long), Some(short)));
}

/// Retention reaches finished runs only, and none but the oldest, each once: as many
/// as there are beyond the limit, and every finished run outside the surplus is newer
/// than every run in it.
pub proof fn surplus_is_the_oldest_finished(
    entries: Seq<IndexedRun>,
    max: usize,
    ids: Seq<Seq<char>>,
)
    requires
        ids_rise(entries),
        are_surplus(entries, max, ids),
    ensures
        forall|k: int|
            0 <= k < ids.len() ==> (entry_of(entries, #[trigger] ids[k]) matches Some(entry)
                && entry.status.terminal()),
        ids.len() == if finished(entries).len() <= max {
            0
        } else {
            finished(entries).len() - max
        },
        forall|kept: IndexedRun, gone: IndexedRun|
            #![trigger finished(entries).contains(kept), finished(entries).contains(gone)]
            finished(entries).contains(kept) && !ids.contains(kept.id@) && finished(
                entries,
            ).contains(gone) && ids.contains(gone.id@) ==> newest_first()(kept, gone),
        ids.no_duplicates(),
{
    let done = finished(entries);
    lemma_finished(entries);
    if done.len() > max {
        let all = choose|all: Seq<IndexedRun>| #[trigger]
            is_sorted_from(done, all, newest_first()) && ids == all.skip(max as int).map_values(
                |run: IndexedRun| run.id@,
            );
        sorting_keeps_the_items(done, all, newest_first());
        listing_is_newest_first(done, all);
        assert forall|k: int| 0 <= k < ids.len() implies (entry_of(entries, #[trigger] ids[k])
            matches Some(entry) && entry.status.terminal()) by {
            let run = all[k + max];
            assert(ids[k] == run.id@);
            assert(all.contains(run));
            assert(done.contains(run));
            let d = choose|d: int| 0 <= d < done.len() && done[d] == run;
            assert(done[d].entry.status.terminal());
            let e = choose|e: int| 0 <= e < entries.len() && entries[e] == run;
            lemma_entry_at(entries, e);
        }
        assert forall|kept: IndexedRun, gone: IndexedRun|
            #![trigger done.contains(kept), done.contains(gone)]
            done.contains(kept) && !ids.contains(kept.id@) && done.contains(gone) && ids.contains(
                gone.id@,
            ) implies newest_first()(kept, gone) by {
            assert(all.contains(kept) && all.contains(gone));
            let i = choose|i: int| 0 <= i < all.len() && all[i] == kept;
            let j = choose|j: int| 0 <= j < all.len() && all[j] == gone;
            if i >= max {
                assert(ids[i - max] == kept.id@);
            }
            let k = choose|k: int| 0 <= k < ids.len() && ids[k] == gone.id@;
            assert(all[k + max].id@ == gone.id@);
            if j < k + max {
                assert(newest_first()(all[j], all[k + max]));
            } else if j > k + max {
                assert(newest_first()(all[k + max], all[j]));
            }
            assert(newest_first()(all[i], all[j]));
        }
    }
}

} // verus!
