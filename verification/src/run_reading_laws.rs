//! What a listing shows, whatever became of the index.
use vstd::prelude::*;

use crate::automation::AutomationRunRecord;
use crate::order::{
    is_sorted_from, items_in_order_have_one_arrangement, sorting_keeps_the_items,
};
use crate::run_index::{
    indexed_entry, is_thinned, last_run, lemma_entry_at, lemma_entry_listed, limited, lists,
    newest_first, usable_index, AutomationRunIndex, AutomationRunIndexEntry, IndexedRun,
    RunAuthorityGeneration,
};
use crate::run_index_laws::listing_is_newest_first;
use crate::run_reading::{
    are_wanted, is_reading_course, reads_next, ReadingAction, ReadingEvent, ReadingMove, ReadingStage, RunQuery,
};
use crate::run_save::{is_entered, RunSaveEvent, RunSaveMove, RunSaveStage};
use crate::text::{lex_less, lex_less_is_a_strict_order, texts};

verus! {

/// No identifier stands twice among the runs.
pub open spec fn runs_differ(runs: Seq<AutomationRunRecord>) -> bool {
    forall|i: int, j: int|
        0 <= i < j < runs.len() ==> (#[trigger] runs[i]).id@ != (#[trigger] runs[j]).id@
}

/// The index says of each run what its record says, and lists no other, as one does that was
/// made from the records.
pub open spec fn is_index_of(index: AutomationRunIndex, runs: Seq<AutomationRunRecord>) -> bool {
    &&& index.wf()
    &&& forall|id: Seq<char>| #[trigger] index.entry(id) == indexed_entry(runs, id)
}

/// The later run comes first, and of two that were made at one time the one whose identifier
/// is smaller.
pub open spec fn later_run() -> spec_fn(AutomationRunRecord, AutomationRunRecord) -> bool {
    |a: AutomationRunRecord, b: AutomationRunRecord|
        b.created_at.before(a.created_at) || (a.created_at == b.created_at
            && lex_less(a.id@, b.id@))
}

/// The runs, all of them, newest first.
pub open spec fn is_listing(runs: Seq<AutomationRunRecord>, listing: Seq<AutomationRunRecord>) -> bool {
    &&& forall|run: AutomationRunRecord| #[trigger] listing.contains(run) <==> runs.contains(run)
    &&& forall|i: int, j: int|
        0 <= i < j < listing.len() ==> later_run()(#[trigger] listing[i], #[trigger] listing[j])
}

proof fn lemma_later_run()
    ensures
        forall|a: AutomationRunRecord, b: AutomationRunRecord| #[trigger]
            later_run()(a, b) ==> !later_run()(b, a),
{
    assert forall|a: AutomationRunRecord, b: AutomationRunRecord| #[trigger]
        later_run()(a, b) implies !later_run()(b, a) by {
        lex_less_is_a_strict_order(a.id@, b.id@, a.id@);
    }
}

/// Runs have one listing.
pub proof fn runs_have_one_listing(
    runs: Seq<AutomationRunRecord>,
    a: Seq<AutomationRunRecord>,
    b: Seq<AutomationRunRecord>,
)
    requires
        is_listing(runs, a),
        is_listing(runs, b),
    ensures
        a == b,
{
    lemma_later_run();
    items_in_order_have_one_arrangement(a, b, later_run());
}

proof fn lemma_last_run(runs: Seq<AutomationRunRecord>, i: int)
    requires
        runs_differ(runs),
        0 <= i < runs.len(),
    ensures
        last_run(runs, runs[i].id@) == Some(runs[i]),
    decreases runs.len(),
{
    let init = runs.drop_last();
    if i < init.len() {
        assert(runs[i].id@ != runs[runs.len() - 1].id@);
        assert(init[i] == runs[i]);
        assert forall|k: int, l: int| 0 <= k < l < init.len() implies (#[trigger] init[k]).id@ != (
        #[trigger] init[l]).id@ by {
            assert(runs[k].id@ != runs[l].id@);
        }
        lemma_last_run(init, i);
    }
}

proof fn lemma_last_run_is_one(runs: Seq<AutomationRunRecord>, id: Seq<char>)
    ensures
        last_run(runs, id) matches Some(run) ==> runs.contains(run) && run.id@ == id,
    decreases runs.len(),
{
    if runs.len() > 0 {
        let init = runs.drop_last();
        lemma_last_run_is_one(init, id);
        if let Some(run) = last_run(runs, id) {
            if runs.last().id@ == id {
                assert(runs[runs.len() - 1] == run);
            } else {
                let i = choose|i: int| 0 <= i < init.len() && init[i] == run;
                assert(runs[i] == run);
            }
        }
    }
}

/// The runs that an index of all runs offers, in order, stand for the listing.
spec fn stand_for(wanted: Seq<IndexedRun>, listing: Seq<AutomationRunRecord>) -> bool {
    &&& wanted.len() == listing.len()
    &&& forall|i: int|
        #![trigger wanted[i]]
        0 <= i < wanted.len() ==> wanted[i].id@ == listing[i].id@ && wanted[i].entry
            == AutomationRunIndexEntry::of_run(listing[i])
}

proof fn lemma_index_gives_a_listing(
    index: AutomationRunIndex,
    runs: Seq<AutomationRunRecord>,
    all: Seq<IndexedRun>,
) -> (made: Seq<AutomationRunRecord>)
    requires
        runs_differ(runs),
        is_index_of(index, runs),
        is_sorted_from(index.entries@, all, newest_first()),
    ensures
        is_listing(runs, made),
        stand_for(all, made),
{
    let entries = index.entries@;
    sorting_keeps_the_items(entries, all, newest_first());
    listing_is_newest_first(entries, all);
    let made = Seq::new(all.len(), |i: int| last_run(runs, all[i].id@)->Some_0);
    assert forall|i: int| 0 <= i < all.len() implies last_run(runs, (#[trigger] all[i]).id@)
        is Some && runs.contains(made[i]) && made[i].id@ == all[i].id@ && all[i].entry
        == AutomationRunIndexEntry::of_run(made[i]) by {
        assert(all.contains(all[i]));
        assert(entries.contains(all[i]));
        let k = choose|k: int| 0 <= k < entries.len() && entries[k] == all[i];
        lemma_entry_at(entries, k);
        assert(index.entry(all[i].id@) == indexed_entry(runs, all[i].id@));
        lemma_last_run_is_one(runs, all[i].id@);
    }
    assert forall|run: AutomationRunRecord| #[trigger] made.contains(run) <==> runs.contains(
        run,
    ) by {
        if made.contains(run) {
            let i = choose|i: int| 0 <= i < made.len() && made[i] == run;
            assert(last_run(runs, all[i].id@) is Some);
        }
        if runs.contains(run) {
            let k = choose|k: int| 0 <= k < runs.len() && runs[k] == run;
            lemma_last_run(runs, k);
            assert(index.entry(run.id@) == indexed_entry(runs, run.id@));
            lemma_entry_listed(entries, run.id@);
            assert(lists(entries, run.id@));
            let e = choose|e: int| 0 <= e < entries.len() && (#[trigger] entries[e]).id@ == run.id@;
            assert(entries.contains(entries[e]));
            assert(all.contains(entries[e]));
            let i = choose|i: int| 0 <= i < all.len() && all[i] == entries[e];
            assert(made[i] == run);
        }
    }
    assert forall|i: int, j: int| 0 <= i < j < made.len() implies later_run()(
        #[trigger] made[i],
        #[trigger] made[j],
    ) by {
        assert(newest_first()(all[i], all[j]));
        assert(last_run(runs, all[i].id@) is Some);
        assert(last_run(runs, all[j].id@) is Some);
    }
    made
}

proof fn lemma_sorted_index(
    index: AutomationRunIndex,
    runs: Seq<AutomationRunRecord>,
    all: Seq<IndexedRun>,
    listing: Seq<AutomationRunRecord>,
)
    requires
        runs_differ(runs),
        is_index_of(index, runs),
        is_sorted_from(index.entries@, all, newest_first()),
        is_listing(runs, listing),
    ensures
        stand_for(all, listing),
{
    let made = lemma_index_gives_a_listing(index, runs, all);
    runs_have_one_listing(runs, made, listing);
}

/// Indexes of the same runs offer the same runs to a listing, in the same order.
pub proof fn indexes_of_the_same_runs_list_the_same(
    runs: Seq<AutomationRunRecord>,
    limit: Option<usize>,
    a: AutomationRunIndex,
    wanted_a: Seq<IndexedRun>,
    b: AutomationRunIndex,
    wanted_b: Seq<IndexedRun>,
)
    requires
        runs_differ(runs),
        is_index_of(a, runs),
        is_index_of(b, runs),
        are_wanted(RunQuery::Listing { limit }, a, wanted_a),
        are_wanted(RunQuery::Listing { limit }, b, wanted_b),
    ensures
        wanted_a.len() == wanted_b.len(),
        forall|i: int|
            #![trigger wanted_a[i]]
            0 <= i < wanted_a.len() ==> wanted_a[i].id@ == wanted_b[i].id@ && wanted_a[i].entry
                == wanted_b[i].entry,
{
    let all_a = choose|all: Seq<IndexedRun>| #[trigger]
        is_sorted_from(a.entries@, all, newest_first()) && wanted_a == limited(
            all,
            limit,
        );
    let all_b = choose|all: Seq<IndexedRun>| #[trigger]
        is_sorted_from(b.entries@, all, newest_first()) && wanted_b == limited(
            all,
            limit,
        );
    let listing = lemma_index_gives_a_listing(a, runs, all_a);
    lemma_sorted_index(a, runs, all_a, listing);
    lemma_sorted_index(b, runs, all_b, listing);
    assert forall|i: int|
        #![trigger wanted_a[i]]
        0 <= i < wanted_a.len() implies wanted_a[i].id@ == wanted_b[i].id@ && wanted_a[i].entry
        == wanted_b[i].entry by {
        assert(wanted_a[i] == all_a[i]);
        assert(wanted_b[i] == all_b[i]);
    }
}

/// The index that a reading has taken up last.
pub open spec fn index_in_use(steps: Seq<ReadingMove>) -> Option<AutomationRunIndex>
    decreases steps.len(),
{
    if steps.len() == 0 {
        None
    } else {
        match steps.last().event {
            ReadingEvent::IndexLoaded(Ok(index)) => Some(index),
            ReadingEvent::IndexRebuilt(Ok(index)) => Some(index),
            _ => index_in_use(steps.drop_last()),
        }
    }
}

/// Each record that was asked for was handed over as it is stored.
pub open spec fn reads_stored_runs(steps: Seq<ReadingMove>, runs: Seq<AutomationRunRecord>) -> bool {
    forall|i: int| #![trigger steps[i]] 0 <= i < steps.len() ==> reads_stored_run(steps[i], runs)
}

pub open spec fn reads_stored_run(s: ReadingMove, runs: Seq<AutomationRunRecord>) -> bool {
    s.event matches ReadingEvent::RunLoaded(loaded) ==> (
    s.before.stage matches ReadingStage::LoadingRun { wanted, taken, .. } ==> loaded == Ok::<
        Option<AutomationRunRecord>,
        String,
    >(last_run(runs, wanted@[taken@.len() as int].id@)))
}

/// A listing that is being read is on its way to `listing`.
spec fn is_under_way(stage: ReadingStage, listing: Seq<AutomationRunRecord>) -> bool {
    stage matches ReadingStage::LoadingRun { wanted, taken, .. } ==> {
        &&& stand_for(wanted@, listing)
        &&& taken@.len() < wanted@.len()
        &&& taken@ == listing.take(taken@.len() as int)
    }
}

/// A listing that has been read is `listing`.
spec fn is_read(action: ReadingAction, listing: Seq<AutomationRunRecord>) -> bool {
    action matches ReadingAction::Finish { runs, .. } ==> runs@ == listing
}

proof fn lemma_last_run_of_listed(
    runs: Seq<AutomationRunRecord>,
    listing: Seq<AutomationRunRecord>,
    i: int,
)
    requires
        runs_differ(runs),
        is_listing(runs, listing),
        0 <= i < listing.len(),
    ensures
        last_run(runs, listing[i].id@) == Some(listing[i]),
{
    assert(listing.contains(listing[i]));
    assert(runs.contains(listing[i]));
    let k = choose|k: int| 0 <= k < runs.len() && runs[k] == listing[i];
    lemma_last_run(runs, k);
}

proof fn lemma_taken_up(
    index: AutomationRunIndex,
    runs: Seq<AutomationRunRecord>,
    limit: Option<usize>,
    wanted: Seq<IndexedRun>,
    listing: Seq<AutomationRunRecord>,
)
    requires
        runs_differ(runs),
        is_index_of(index, runs),
        are_wanted(RunQuery::Listing { limit }, index, wanted),
        is_listing(runs, listing),
    ensures
        stand_for(wanted, limited(listing, limit)),
{
    let all = choose|all: Seq<IndexedRun>| #[trigger]
        is_sorted_from(index.entries@, all, newest_first()) && wanted == limited(all, limit);
    lemma_sorted_index(index, runs, all, listing);
    let shown = limited(listing, limit);
    assert forall|i: int| #![trigger wanted[i]] 0 <= i < wanted.len() implies wanted[i].id@
        == shown[i].id@ && wanted[i].entry == AutomationRunIndexEntry::of_run(shown[i]) by {
        assert(wanted[i] == all[i]);
    }
}

proof fn lemma_query_stays(steps: Seq<ReadingMove>, i: int)
    requires
        is_reading_course(steps),
        0 <= i < steps.len(),
    ensures
        steps[i].after.query == steps[0].before.query,
    decreases i,
{
    assert(steps[i].is_step());
    if i > 0 {
        lemma_query_stays(steps, i - 1);
        assert(steps[i].before == steps[i - 1].after);
    }
}

proof fn lemma_takes_up(
    s: ReadingMove,
    index: AutomationRunIndex,
    runs: Seq<AutomationRunRecord>,
    limit: Option<usize>,
    listing: Seq<AutomationRunRecord>,
)
    requires
        s.is_step(),
        s.before.query == (RunQuery::Listing { limit }),
        s.event == ReadingEvent::IndexLoaded(Ok(index)) || s.event == ReadingEvent::IndexRebuilt(
            Ok(index),
        ),
        runs_differ(runs),
        is_index_of(index, runs),
        is_listing(runs, listing),
    ensures
        is_under_way(s.after.stage, limited(listing, limit)),
        is_read(s.action, limited(listing, limit)),
{
    let stale = match s.before.stage {
        ReadingStage::Rebuilding { stale } => Some(stale@),
        _ => None,
    };
    let wanted = choose|wanted: Seq<IndexedRun>| #[trigger]
        are_wanted(s.before.query, index, wanted) && reads_next(
            wanted,
            Seq::empty(),
            index.latest_terminal_at,
            stale,
            s.after.stage,
            s.action,
        );
    let shown = limited(listing, limit);
    lemma_taken_up(index, runs, limit, wanted, listing);
    assert(shown.take(0) =~= Seq::empty());
    if wanted.len() == 0 {
        assert(shown =~= Seq::empty());
    }
}

proof fn lemma_takes_one(
    s: ReadingMove,
    runs: Seq<AutomationRunRecord>,
    limit: Option<usize>,
    listing: Seq<AutomationRunRecord>,
)
    requires
        s.is_step(),
        s.before.query == (RunQuery::Listing { limit }),
        s.event is RunLoaded,
        reads_stored_run(s, runs),
        runs_differ(runs),
        is_listing(runs, listing),
        is_under_way(s.before.stage, limited(listing, limit)),
    ensures
        is_under_way(s.after.stage, limited(listing, limit)),
        is_read(s.action, limited(listing, limit)),
        s.action is LoadRun || s.action is Finish,
{
    let shown = limited(listing, limit);
    if let ReadingStage::LoadingRun { wanted, taken, .. } = s.before.stage {
        let k = taken@.len() as int;
        assert(wanted@[k].id@ == shown[k].id@);
        assert(shown[k] == listing[k]);
        lemma_last_run_of_listed(runs, listing, k);
        assert(shown.take(k + 1) =~= shown.take(k).push(shown[k]));
        assert(shown.take(shown.len() as int) =~= shown);
    }
}

proof fn lemma_on_the_way(
    steps: Seq<ReadingMove>,
    runs: Seq<AutomationRunRecord>,
    limit: Option<usize>,
    listing: Seq<AutomationRunRecord>,
)
    requires
        steps.len() > 0,
        is_reading_course(steps),
        steps[0].before.stage is New,
        steps[0].before.query == (RunQuery::Listing { limit }),
        runs_differ(runs),
        reads_stored_runs(steps, runs),
        is_listing(runs, listing),
        index_in_use(steps) matches Some(index) ==> is_index_of(index, runs),
    ensures
        steps.last().after.query == steps[0].before.query,
        is_under_way(steps.last().after.stage, limited(listing, limit)),
        is_read(steps.last().action, limited(listing, limit)),
    decreases steps.len(),
{
    let n = steps.len() - 1;
    let s = steps[n];
    let shown = limited(listing, limit);
    assert(s.is_step());
    assert(reads_stored_run(steps[n], runs));
    if n == 0 {
        if limit == Some(0usize) {
            assert(shown =~= Seq::empty());
            if let ReadingAction::Finish { runs, .. } = s.action {
                assert(runs@ =~= shown);
            }
        }
    } else {
        let init = steps.drop_last();
        assert(s.before == steps[n - 1].after);
        assert(init.last() == steps[n - 1]);
        assert forall|i: int| 0 <= i < init.len() implies (#[trigger] init[i]).is_step() by {
            assert(steps[i].is_step());
        }
        assert forall|i: int, j: int|
            #![trigger init[i], init[j]]
            0 <= i && j == i + 1 && j < init.len() implies init[j].before == init[i].after by {
            assert(steps[j].before == steps[i].after);
        }
        assert(is_reading_course(init));
        lemma_query_stays(steps, n - 1);
        assert(steps[n - 1].is_step());
        match s.event {
            ReadingEvent::IndexLoaded(Ok(index)) => {
                lemma_takes_up(s, index, runs, limit, listing);
            },
            ReadingEvent::IndexRebuilt(Ok(index)) => {
                lemma_takes_up(s, index, runs, limit, listing);
            },
            ReadingEvent::RunLoaded(_) => {
                assert forall|i: int| #![trigger init[i]] 0 <= i < init.len() implies reads_stored_run(
                    init[i],
                    runs,
                ) by {
                    assert(reads_stored_run(steps[i], runs));
                }
                lemma_on_the_way(init, runs, limit, listing);
                lemma_takes_one(s, runs, limit, listing);
            },
            _ => {},
        }
    }
}

/// A listing shows the stored runs newest first, as many as it may, whatever became of the
/// index: it may have been loaded, made anew because it was lost or invalid, or made anew
/// because a record did not agree with it. What counts is that the one that was used last
/// is an index of the stored runs.
pub proof fn listings_show_the_stored_runs(
    steps: Seq<ReadingMove>,
    limit: Option<usize>,
    runs: Seq<AutomationRunRecord>,
    listing: Seq<AutomationRunRecord>,
)
    requires
        steps.len() > 0,
        is_reading_course(steps),
        steps[0].before.stage is New,
        steps[0].before.query == (RunQuery::Listing { limit }),
        runs_differ(runs),
        reads_stored_runs(steps, runs),
        index_in_use(steps) matches Some(index) ==> is_index_of(index, runs),
        is_listing(runs, listing),
    ensures
        steps.last().action matches ReadingAction::Finish { runs: shown, .. } ==> shown@ == limited(
            listing,
            limit,
        ),
{
    lemma_on_the_way(steps, runs, limit, listing);
}

/// Once an index of the stored runs is in use, every record that is handed over as it is
/// stored is taken: the index is not made anew, and the listing does not fail.
pub proof fn stored_runs_are_taken(
    steps: Seq<ReadingMove>,
    limit: Option<usize>,
    runs: Seq<AutomationRunRecord>,
    listing: Seq<AutomationRunRecord>,
)
    requires
        steps.len() > 1,
        is_reading_course(steps),
        steps[0].before.stage is New,
        steps[0].before.query == (RunQuery::Listing { limit }),
        runs_differ(runs),
        reads_stored_runs(steps, runs),
        index_in_use(steps) matches Some(index) ==> is_index_of(index, runs),
        is_listing(runs, listing),
        steps.last().event is RunLoaded,
    ensures
        steps.last().action is LoadRun || steps.last().action is Finish,
{
    let n = steps.len() - 1;
    let init = steps.drop_last();
    assert forall|i: int| 0 <= i < init.len() implies (#[trigger] init[i]).is_step() by {
        assert(steps[i].is_step());
    }
    assert forall|i: int, j: int|
        #![trigger init[i], init[j]]
        0 <= i && j == i + 1 && j < init.len() implies init[j].before == init[i].after by {
        assert(steps[j].before == steps[i].after);
    }
    assert forall|i: int| #![trigger init[i]] 0 <= i < init.len() implies reads_stored_run(
        init[i],
        runs,
    ) by {
        assert(reads_stored_run(steps[i], runs));
    }
    lemma_on_the_way(init, runs, limit, listing);
    assert(steps[n].before == steps[n - 1].after);
    assert(steps[n].is_step());
    assert(reads_stored_run(steps[n], runs));
    lemma_takes_one(steps[n], runs, limit, listing);
}

// The index on disk --------------------------------------------------------------
/// What is stored of an automation's runs: the records, the index, the mark that it is out of
/// date, and the time at which the directory of records last changed.
pub struct RunStore {
    pub automation_id: Seq<char>,
    pub runs: Seq<AutomationRunRecord>,
    pub index: Option<AutomationRunIndex>,
    pub dirty: bool,
    pub generation: RunAuthorityGeneration,
}

impl RunStore {
    /// The stored index, where it may be used.
    pub open spec fn usable(self) -> Option<AutomationRunIndex> {
        usable_index(self.dirty, self.index, self.automation_id, self.generation)
    }

    /// No run is stored twice, and an index that may be used is one of the stored runs.
    pub open spec fn is_kept(self) -> bool {
        &&& runs_differ(self.runs)
        &&& self.usable() matches Some(index) ==> is_index_of(index, self.runs)
    }

    /// Whether a reading is handed this index: the stored one where it may be used, and one that
    /// is made from the records where it may not, be it that it is missing, cannot be read, is
    /// not valid, is marked, or is older than the records.
    pub open spec fn hands_over(self, index: AutomationRunIndex) -> bool {
        match self.usable() {
            Some(stored) => index == stored,
            None => is_index_of(index, self.runs),
        }
    }
}

/// The indexes that a reading is handed come from the store.
pub open spec fn takes_indexes_from(steps: Seq<ReadingMove>, store: RunStore) -> bool {
    forall|i: int| #![trigger steps[i]] 0 <= i < steps.len() ==> takes_index_from(steps[i], store)
}

pub open spec fn takes_index_from(s: ReadingMove, store: RunStore) -> bool {
    match s.event {
        ReadingEvent::IndexLoaded(Ok(index)) => store.hands_over(index),
        ReadingEvent::IndexRebuilt(Ok(index)) => is_index_of(index, store.runs),
        _ => true,
    }
}

proof fn lemma_index_in_use(steps: Seq<ReadingMove>, store: RunStore)
    requires
        store.is_kept(),
        takes_indexes_from(steps, store),
    ensures
        index_in_use(steps) matches Some(index) ==> is_index_of(index, store.runs),
    decreases steps.len(),
{
    if steps.len() > 0 {
        let n = steps.len() - 1;
        assert(takes_index_from(steps[n], store));
        let init = steps.drop_last();
        assert forall|i: int| #![trigger init[i]] 0 <= i < init.len() implies takes_index_from(
            init[i],
            store,
        ) by {
            assert(takes_index_from(steps[i], store));
        }
        lemma_index_in_use(init, store);
    }
}

/// A listing shows the stored runs newest first, as many as it may, in whatever state the index
/// is found: missing, not readable, not valid, marked as out of date, older than the records,
/// or sound.
pub proof fn listings_do_not_depend_on_the_index(
    steps: Seq<ReadingMove>,
    limit: Option<usize>,
    store: RunStore,
    listing: Seq<AutomationRunRecord>,
)
    requires
        steps.len() > 0,
        is_reading_course(steps),
        steps[0].before.stage is New,
        steps[0].before.query == (RunQuery::Listing { limit }),
        store.is_kept(),
        takes_indexes_from(steps, store),
        reads_stored_runs(steps, store.runs),
        is_listing(store.runs, listing),
    ensures
        steps.last().action matches ReadingAction::Finish { runs: shown, .. } ==> shown@ == limited(
            listing,
            limit,
        ),
        steps.last().action !is RebuildIndex && steps.last().action !is MarkDirty,
        steps.last().action is Fail ==> steps.last().event is Begun || (
        steps.last().event matches ReadingEvent::IndexLoaded(Err(_))),
{
    lemma_index_in_use(steps, store);
    listings_show_the_stored_runs(steps, limit, store.runs, listing);
    lemma_no_rebuild(steps, limit, store, listing);
}

proof fn lemma_no_rebuild(
    steps: Seq<ReadingMove>,
    limit: Option<usize>,
    store: RunStore,
    listing: Seq<AutomationRunRecord>,
)
    requires
        steps.len() > 0,
        is_reading_course(steps),
        steps[0].before.stage is New,
        steps[0].before.query == (RunQuery::Listing { limit }),
        store.is_kept(),
        takes_indexes_from(steps, store),
        reads_stored_runs(steps, store.runs),
        is_listing(store.runs, listing),
    ensures
        steps.last().action !is RebuildIndex && steps.last().action !is MarkDirty,
        steps.last().after.stage !is Marking && steps.last().after.stage !is Rebuilding,
        steps.last().action is Fail ==> steps.last().event is Begun || (
        steps.last().event matches ReadingEvent::IndexLoaded(Err(_))),
    decreases steps.len(),
{
    let n = steps.len() - 1;
    assert(steps[n].is_step());
    if n > 0 {
        let init = steps.drop_last();
        assert forall|i: int| 0 <= i < init.len() implies (#[trigger] init[i]).is_step() by {
            assert(steps[i].is_step());
        }
        assert forall|i: int, j: int|
            #![trigger init[i], init[j]]
            0 <= i && j == i + 1 && j < init.len() implies init[j].before == init[i].after by {
            assert(steps[j].before == steps[i].after);
        }
        assert forall|i: int| #![trigger init[i]] 0 <= i < init.len() implies takes_index_from(
            init[i],
            store,
        ) && reads_stored_run(init[i], store.runs) by {
            assert(takes_index_from(steps[i], store));
            assert(reads_stored_run(steps[i], store.runs));
        }
        lemma_no_rebuild(init, limit, store, listing);
        assert(steps[n].before == steps[n - 1].after);
        if steps[n].event is RunLoaded {
            lemma_index_in_use(steps, store);
            stored_runs_are_taken(steps, limit, store.runs, listing);
        }
    }
}

/// The runs with one that is stored, in place of an earlier record of it.
pub open spec fn with_run(runs: Seq<AutomationRunRecord>, run: AutomationRunRecord) -> Seq<
    AutomationRunRecord,
> {
    runs.filter(|r: AutomationRunRecord| r.id@ != run.id@).push(run)
}

/// The runs without those that were removed.
pub open spec fn without_runs(runs: Seq<AutomationRunRecord>, removed: Seq<Seq<char>>) -> Seq<
    AutomationRunRecord,
> {
    runs.filter(|r: AutomationRunRecord| !removed.contains(r.id@))
}

proof fn lemma_last_run_of_some(
    runs: Seq<AutomationRunRecord>,
    keep: spec_fn(AutomationRunRecord) -> bool,
    id: Seq<char>,
    kept: bool,
)
    requires
        forall|r: AutomationRunRecord| r.id@ == id ==> #[trigger] keep(r) == kept,
    ensures
        last_run(runs.filter(keep), id) == if kept {
            last_run(runs, id)
        } else {
            None
        },
    decreases runs.len(),
{
    reveal(Seq::filter);
    if runs.len() > 0 {
        let init = runs.drop_last();
        lemma_last_run_of_some(init, keep, id, kept);
        let last = runs.last();
        if keep(last) {
            assert(init.filter(keep).push(last).drop_last() =~= init.filter(keep));
        }
    }
}

proof fn lemma_some_runs_differ(
    runs: Seq<AutomationRunRecord>,
    keep: spec_fn(AutomationRunRecord) -> bool,
)
    requires
        runs_differ(runs),
    ensures
        runs_differ(runs.filter(keep)),
        forall|i: int|
            0 <= i < runs.filter(keep).len() ==> keep(#[trigger] runs.filter(keep)[i])
                && runs.contains(runs.filter(keep)[i]),
    decreases runs.len(),
{
    reveal(Seq::filter);
    if runs.len() > 0 {
        let init = runs.drop_last();
        let n = init.len() as int;
        assert forall|i: int, j: int| 0 <= i < j < init.len() implies (#[trigger] init[i]).id@ != (
        #[trigger] init[j]).id@ by {
            assert(runs[i].id@ != runs[j].id@);
        }
        lemma_some_runs_differ(init, keep);
        let (before, all) = (init.filter(keep), runs.filter(keep));
        assert forall|i: int| 0 <= i < all.len() implies keep(#[trigger] all[i]) && runs.contains(
            all[i],
        ) by {
            if i < before.len() {
                assert(init.contains(before[i]));
                let k = choose|k: int| 0 <= k < init.len() && init[k] == before[i];
                assert(runs[k] == all[i]);
            } else {
                assert(runs[n] == all[i]);
            }
        }
        assert forall|i: int, j: int| 0 <= i < j < all.len() implies (#[trigger] all[i]).id@ != (
        #[trigger] all[j]).id@ by {
            if j < before.len() {
                assert(before[i].id@ != before[j].id@);
            } else {
                assert(init.contains(before[i]));
                let k = choose|k: int| 0 <= k < init.len() && init[k] == before[i];
                assert(runs[k].id@ != runs[n].id@);
            }
        }
    }
}

/// Storing or removing runs lets none be stored twice.
pub proof fn stored_runs_keep_differing(
    runs: Seq<AutomationRunRecord>,
    run: AutomationRunRecord,
    removed: Seq<Seq<char>>,
)
    requires
        runs_differ(runs),
    ensures
        runs_differ(with_run(runs, run)),
        runs_differ(without_runs(runs, removed)),
{
    let others = |r: AutomationRunRecord| r.id@ != run.id@;
    lemma_some_runs_differ(runs, others);
    lemma_some_runs_differ(runs, |r: AutomationRunRecord| !removed.contains(r.id@));
    let all = with_run(runs, run);
    assert forall|i: int, j: int| 0 <= i < j < all.len() implies (#[trigger] all[i]).id@ != (
    #[trigger] all[j]).id@ by {
        assert(all[i] == runs.filter(others)[i]);
        if j < all.len() - 1 {
            assert(all[j] == runs.filter(others)[j]);
        } else {
            assert(others(runs.filter(others)[i]));
        }
    }
}

/// A run that is entered where it is stored keeps the index true.
pub proof fn entering_keeps_indexes_true(
    runs: Seq<AutomationRunRecord>,
    old: AutomationRunIndex,
    run: AutomationRunRecord,
    new: AutomationRunIndex,
)
    requires
        is_index_of(old, runs),
        is_entered(old, run, new),
    ensures
        is_index_of(new, with_run(runs, run)),
{
    let keep = |r: AutomationRunRecord| r.id@ != run.id@;
    let rest = runs.filter(keep);
    let all = with_run(runs, run);
    assert(all.drop_last() =~= rest);
    assert forall|id: Seq<char>| #[trigger] new.entry(id) == indexed_entry(all, id) by {
        if id != run.id@ {
            lemma_last_run_of_some(runs, keep, id, true);
            assert(old.entry(id) == indexed_entry(runs, id));
        }
    }
}

/// Runs that are taken out where they are removed keep the index true.
pub proof fn thinning_keeps_indexes_true(
    runs: Seq<AutomationRunRecord>,
    old: AutomationRunIndex,
    removed: Seq<Seq<char>>,
    new: AutomationRunIndex,
)
    requires
        is_index_of(old, runs),
        is_thinned(old, removed, new),
    ensures
        is_index_of(new, without_runs(runs, removed)),
{
    let keep = |r: AutomationRunRecord| !removed.contains(r.id@);
    assert forall|id: Seq<char>| #[trigger] new.entry(id) == indexed_entry(
        without_runs(runs, removed),
        id,
    ) by {
        lemma_last_run_of_some(runs, keep, id, !removed.contains(id));
        assert(old.entry(id) == indexed_entry(runs, id));
    }
}

/// The index that is stored with a run is one of the runs that are stored by then: with the run
/// itself, and without those that are no longer kept.
pub proof fn saved_indexes_are_true(s: RunSaveMove, runs: Seq<AutomationRunRecord>)
    requires
        s.is_step(),
    ensures
        s.event matches RunSaveEvent::Written(Ok(_)) && (
        s.before.stage matches RunSaveStage::Writing { index: Some(old) } && is_index_of(old, runs))
            ==> match s.after.stage {
            RunSaveStage::SavingIndex { index } => is_index_of(index, with_run(runs, s.before.run)),
            RunSaveStage::Retaining { index } => is_index_of(index, with_run(runs, s.before.run)),
            _ => false,
        },
        s.event matches RunSaveEvent::Retained { removed } ==> (
        s.before.stage matches RunSaveStage::Retaining { index: old } && is_index_of(old, runs)
            ==> (s.after.stage matches RunSaveStage::SavingIndex { index } && is_index_of(
            index,
            without_runs(runs, texts(removed@)),
        ))),
{
    match (s.event, s.before.stage) {
        (RunSaveEvent::Written(Ok(_)), RunSaveStage::Writing { index: Some(old) }) => {
            if is_index_of(old, runs) {
                match s.after.stage {
                    RunSaveStage::SavingIndex { index } => {
                        entering_keeps_indexes_true(runs, old, s.before.run, index);
                    },
                    RunSaveStage::Retaining { index } => {
                        entering_keeps_indexes_true(runs, old, s.before.run, index);
                    },
                    _ => {},
                }
            }
        },
        (RunSaveEvent::Retained { removed }, RunSaveStage::Retaining { index: old }) => {
            if is_index_of(old, runs) {
                if let RunSaveStage::SavingIndex { index } = s.after.stage {
                    thinning_keeps_indexes_true(runs, old, texts(removed@), index);
                }
            }
        },
        _ => {},
    }
}

/// While the mark stands, records may change: the index is not used. Nor is it where the
/// directory of records changed after the index was stored.
pub proof fn changed_records_leave_the_store_kept(store: RunStore)
    requires
        runs_differ(store.runs),
        store.dirty || (store.index matches Some(index) ==> index.authority_generation
            != store.generation),
    ensures
        store.is_kept(),
{
}

/// An index of the stored runs that is stored, with the time at which the directory of records
/// last changed, leaves the store in order.
pub proof fn stored_indexes_leave_the_store_kept(store: RunStore, index: AutomationRunIndex)
    requires
        runs_differ(store.runs),
        is_index_of(index, store.runs),
        store.index == Some(AutomationRunIndex { authority_generation: store.generation, ..index }),
    ensures
        store.is_kept(),
{
    let stored = store.index->Some_0;
    assert forall|id: Seq<char>| #[trigger] stored.entry(id) == indexed_entry(store.runs, id) by {
        assert(index.entry(id) == indexed_entry(store.runs, id));
    }
}

} // verus!
