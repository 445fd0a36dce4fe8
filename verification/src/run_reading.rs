//! How runs are read through their index.
//!
//! The index says which runs there are; their records are then read one by one. Where a
//! record is missing or says something else than the index, the index is made anew from
//! the records and the reading starts again, once.
use vstd::prelude::*;
use vstd::string::*;

use crate::automation::AutomationRunRecord;
use crate::failure::Failure;
use crate::order::is_sorted_from;
use crate::run_index::{
    entry_matches, limited, listed_runs, missing_run, newest_first, take_listed_run,
    take_unsettled_run, unsettled, unsettled_runs, AutomationRunIndex, IndexedRun,
};
use crate::storage_id::{ensure_safe_storage_id, storage_id_fault};
use crate::text::{copy_text, join2, text_opt};
use crate::time::Timestamp;

verus! {

/// What the runs are read for.
#[derive(Debug, Clone, Copy, PartialEq, Eq, Structural)]
pub enum RunQuery {
    /// A listing, newest first.
    Listing { limit: Option<usize> },
    /// The runs that have to be looked at again.
    Unsettled,
}

/// Where the reading stands: what it waits for.
#[derive(Debug)]
pub enum ReadingStage {
    New,
    /// The index.
    LoadingIndex,
    /// The record of the first of the `wanted` runs that has not been taken. `stale` is
    /// what was wrong with the index that was used before.
    LoadingRun {
        wanted: Vec<IndexedRun>,
        taken: Vec<AutomationRunRecord>,
        latest: Option<Timestamp>,
        stale: Option<String>,
    },
    /// The mark that the index is out of date.
    Marking { stale: String },
    /// An index that is made anew.
    Rebuilding { stale: String },
    Done,
}

/// What happened since the last step.
#[derive(Debug)]
pub enum ReadingEvent {
    Begun,
    IndexLoaded(Result<AutomationRunIndex, String>),
    /// The record, where there is one, or why it could not be read.
    RunLoaded(Result<Option<AutomationRunRecord>, String>),
    Marked,
    IndexRebuilt(Result<AutomationRunIndex, String>),
}

/// What to do next.
#[derive(Debug)]
pub enum ReadingAction {
    LoadIndex,
    LoadRun { run_id: String },
    MarkDirty,
    RebuildIndex,
    /// The runs, and when the last of the finished runs ended.
    Finish { runs: Vec<AutomationRunRecord>, latest: Option<Timestamp> },
    Fail(Failure),
}

/// The reading of an automation's runs.
#[derive(Debug)]
pub struct RunReading {
    pub automation_id: String,
    pub query: RunQuery,
    pub stage: ReadingStage,
}

/// The runs that an index offers to a query, in order.
pub open spec fn are_wanted(query: RunQuery, index: AutomationRunIndex, wanted: Seq<IndexedRun>) -> bool {
    match query {
        RunQuery::Listing { limit } => exists|all: Seq<IndexedRun>| #[trigger]
            is_sorted_from(index.entries@, all, newest_first()) && wanted == limited(all, limit),
        RunQuery::Unsettled => wanted == unsettled(index.entries@),
    }
}

/// Whether the record of a run is what the index led to expect.
pub open spec fn is_as_indexed(query: RunQuery, wanted: IndexedRun, run: AutomationRunRecord) -> bool {
    match query {
        RunQuery::Listing { .. } => entry_matches(run, wanted.entry),
        RunQuery::Unsettled => run.created_at == wanted.entry.created_at && run.status
            == wanted.entry.status,
    }
}

/// The words for a record that is not.
pub open spec fn mismatch(query: RunQuery, wanted: IndexedRun, run: AutomationRunRecord) -> Seq<char> {
    match query {
        RunQuery::Listing { .. } => "Run index metadata for '"@ + run.id@
            + "' does not match its authority record"@,
        RunQuery::Unsettled => "Run index metadata for '"@ + wanted.id@ + "' is stale"@,
    }
}

/// What is wrong with what was read of a run.
pub open spec fn reading_fault(
    query: RunQuery,
    wanted: IndexedRun,
    loaded: Result<Option<AutomationRunRecord>, String>,
) -> Option<Seq<char>> {
    match loaded {
        Err(why) => Some(why@),
        Ok(None) => Some(missing_run(wanted.id@)),
        Ok(Some(run)) => if is_as_indexed(query, wanted, run) {
            None
        } else {
            Some(mismatch(query, wanted, run))
        },
    }
}

/// The words for an index that could not be made anew.
pub open spec fn stale_words(query: RunQuery, first: Seq<char>) -> Seq<char> {
    match query {
        RunQuery::Listing { .. } => "Run index was stale: "@ + first,
        RunQuery::Unsettled => "Run index active snapshot was stale: "@ + first,
    }
}

/// The words for an index that was made anew to no avail.
pub open spec fn still_stale(query: RunQuery, first: Seq<char>, again: Seq<char>) -> Seq<char> {
    match query {
        RunQuery::Listing { .. } => again,
        RunQuery::Unsettled => "Run index remained stale after rebuild: "@ + first,
    }
}

/// The reading goes on with the next of the `wanted` runs.
pub open spec fn reads_next(
    wanted: Seq<IndexedRun>,
    taken: Seq<AutomationRunRecord>,
    latest: Option<Timestamp>,
    stale: Option<Seq<char>>,
    stage: ReadingStage,
    action: ReadingAction,
) -> bool {
    if taken.len() >= wanted.len() {
        &&& stage is Done
        &&& action matches ReadingAction::Finish { runs, latest: l } && runs@ == taken && l == latest
    } else {
        &&& stage matches ReadingStage::LoadingRun { wanted: w, taken: t, latest: l, stale: s }
            && w@ == wanted && t@ == taken && l == latest && text_opt(s) == stale
        &&& action matches ReadingAction::LoadRun { run_id } && run_id@
            == wanted[taken.len() as int].id@
    }
}

pub open spec fn fails(words: Seq<char>, stage: ReadingStage, action: ReadingAction) -> bool {
    stage is Done && (action matches ReadingAction::Fail(e) && e@ == words)
}

/// What is done about something that is wrong with the index.
pub open spec fn gives_up(
    query: RunQuery,
    stale: Option<Seq<char>>,
    fault: Seq<char>,
    stage: ReadingStage,
    action: ReadingAction,
) -> bool {
    match stale {
        Some(first) => fails(still_stale(query, first, fault), stage, action),
        None => match query {
            RunQuery::Listing { .. } => (stage matches ReadingStage::Marking { stale: s } && s@
                == fault) && action is MarkDirty,
            RunQuery::Unsettled => (stage matches ReadingStage::Rebuilding { stale: s } && s@
                == fault) && action is RebuildIndex,
        },
    }
}

/// What is done with an index.
pub open spec fn takes_up(
    query: RunQuery,
    index: AutomationRunIndex,
    stale: Option<Seq<char>>,
    stage: ReadingStage,
    action: ReadingAction,
) -> bool {
    exists|wanted: Seq<IndexedRun>| #[trigger]
        are_wanted(query, index, wanted) && reads_next(
            wanted,
            Seq::empty(),
            index.latest_terminal_at,
            stale,
            stage,
            action,
        )
}

/// What [`RunReading::step`] does.
pub open spec fn reading_step(
    s: RunReading,
    event: ReadingEvent,
    next: RunReading,
    action: ReadingAction,
) -> bool {
    &&& next.automation_id == s.automation_id
    &&& next.query == s.query
    &&& match event {
        ReadingEvent::Begun => match storage_id_fault("automation id"@, s.automation_id@) {
            Some(words) => fails(words, next.stage, action),
            None => if s.query == (RunQuery::Listing { limit: Some(0) }) {
                next.stage is Done && (action matches ReadingAction::Finish { runs, latest }
                    && runs@.len() == 0 && latest is None)
            } else {
                next.stage is LoadingIndex && action is LoadIndex
            },
        },
        ReadingEvent::IndexLoaded(Err(why)) => fails(why@, next.stage, action),
        ReadingEvent::IndexLoaded(Ok(index)) => takes_up(s.query, index, None, next.stage, action),
        ReadingEvent::RunLoaded(loaded) => s.stage matches ReadingStage::LoadingRun {
            wanted,
            taken,
            latest,
            stale,
        } && {
            let run = wanted@[taken@.len() as int];
            let known = text_opt(stale);
            match reading_fault(s.query, run, loaded) {
                Some(fault) => gives_up(s.query, known, fault, next.stage, action),
                None => reads_next(
                    wanted@,
                    taken@.push(loaded->Ok_0->Some_0),
                    latest,
                    known,
                    next.stage,
                    action,
                ),
            }
        },
        ReadingEvent::Marked => (s.stage matches ReadingStage::Marking { stale } && next.stage == (
        ReadingStage::Rebuilding { stale })) && action is RebuildIndex,
        ReadingEvent::IndexRebuilt(result) => s.stage matches ReadingStage::Rebuilding { stale }
            && match result {
            Err(_) => fails(stale_words(s.query, stale@), next.stage, action),
            Ok(index) => takes_up(s.query, index, Some(stale@), next.stage, action),
        },
    }
}

fn wanted_runs(query: RunQuery, index: &AutomationRunIndex) -> (r: Vec<IndexedRun>)
    ensures
        are_wanted(query, *index, r@),
{
    match query {
        RunQuery::Listing { limit } => listed_runs(index, limit),
        RunQuery::Unsettled => unsettled_runs(index),
    }
}

fn take_run(
    query: RunQuery,
    wanted: &IndexedRun,
    loaded: Result<Option<AutomationRunRecord>, String>,
) -> (r: Result<AutomationRunRecord, String>)
    ensures
        match reading_fault(query, *wanted, loaded) {
            Some(words) => r matches Err(why) && why@ == words,
            None => r == Ok::<AutomationRunRecord, String>(loaded->Ok_0->Some_0),
        },
{
    let found = match loaded {
        Err(why) => {
            return Err(why);
        },
        Ok(found) => found,
    };
    let result = match query {
        RunQuery::Listing { .. } => take_listed_run(wanted.id.as_str(), wanted.entry, found),
        RunQuery::Unsettled => take_unsettled_run(wanted.id.as_str(), wanted.entry, found),
    };
    match result {
        Ok(run) => Ok(run),
        Err(e) => Err(e.message),
    }
}

fn read_next(
    wanted: Vec<IndexedRun>,
    taken: Vec<AutomationRunRecord>,
    latest: Option<Timestamp>,
    stale: Option<String>,
) -> (r: (ReadingStage, ReadingAction))
    ensures
        reads_next(wanted@, taken@, latest, text_opt(stale), r.0, r.1),
{
    if taken.len() >= wanted.len() {
        (ReadingStage::Done, ReadingAction::Finish { runs: taken, latest })
    } else {
        let run_id = copy_text(wanted[taken.len()].id.as_str());
        (ReadingStage::LoadingRun { wanted, taken, latest, stale }, ReadingAction::LoadRun { run_id })
    }
}

fn take_up(query: RunQuery, index: AutomationRunIndex, stale: Option<String>) -> (r: (
    ReadingStage,
    ReadingAction,
))
    ensures
        takes_up(query, index, text_opt(stale), r.0, r.1),
{
    let wanted = wanted_runs(query, &index);
    assert(are_wanted(query, index, wanted@));
    let taken: Vec<AutomationRunRecord> = Vec::new();
    assert(taken@ =~= Seq::empty());
    read_next(wanted, taken, index.latest_terminal_at, stale)
}

fn give_up(query: RunQuery, stale: Option<String>, fault: String) -> (r: (
    ReadingStage,
    ReadingAction,
))
    ensures
        gives_up(query, text_opt(stale), fault@, r.0, r.1),
{
    match (stale, query) {
        (Some(first), RunQuery::Unsettled) => (
            ReadingStage::Done,
            ReadingAction::Fail(
                Failure {
                    message: join2("Run index remained stale after rebuild: ", first.as_str()),
                },
            ),
        ),
        (Some(_), RunQuery::Listing { .. }) => (
            ReadingStage::Done,
            ReadingAction::Fail(Failure { message: fault }),
        ),
        (None, RunQuery::Listing { .. }) => (
            ReadingStage::Marking { stale: fault },
            ReadingAction::MarkDirty,
        ),
        (None, RunQuery::Unsettled) => (
            ReadingStage::Rebuilding { stale: fault },
            ReadingAction::RebuildIndex,
        ),
    }
}

impl RunReading {
    /// The reading of an automation's runs.
    pub fn new(automation_id: String, query: RunQuery) -> (r: Self)
        ensures
            r == (RunReading { automation_id, query, stage: ReadingStage::New }),
    {
        RunReading { automation_id, query, stage: ReadingStage::New }
    }

    /// What has been taken is what the index led to expect, and there is more to take.
    pub open spec fn wf(self) -> bool {
        self.stage matches ReadingStage::LoadingRun { wanted, taken, .. } ==> {
            &&& taken@.len() < wanted@.len()
            &&& forall|i: int|
                0 <= i < taken@.len() ==> is_as_indexed(
                    self.query,
                    wanted@[i],
                    #[trigger] taken@[i],
                )
        }
    }

    /// Whether the reading waits for an event of this sort.
    pub open spec fn expects(self, event: ReadingEvent) -> bool {
        match event {
            ReadingEvent::Begun => self.stage is New,
            ReadingEvent::IndexLoaded(_) => self.stage is LoadingIndex,
            ReadingEvent::RunLoaded(_) => self.stage is LoadingRun,
            ReadingEvent::Marked => self.stage is Marking,
            ReadingEvent::IndexRebuilt(_) => self.stage is Rebuilding,
        }
    }

    fn begin(&self) -> (r: (ReadingStage, ReadingAction))
        ensures
            reading_step(
                *self,
                ReadingEvent::Begun,
                (RunReading { stage: r.0, ..*self }),
                r.1,
            ),
    {
        if let Err(e) = ensure_safe_storage_id("automation id", self.automation_id.as_str()) {
            return (ReadingStage::Done, ReadingAction::Fail(e));
        }
        match self.query {
            RunQuery::Listing { limit: Some(n) } => if n == 0 {
                return (
                    ReadingStage::Done,
                    ReadingAction::Finish { runs: Vec::new(), latest: None },
                );
            },
            _ => {},
        }
        (ReadingStage::LoadingIndex, ReadingAction::LoadIndex)
    }

    /// Takes what happened and says what to do next.
    pub fn step(&mut self, event: ReadingEvent) -> (r: ReadingAction)
        requires
            old(self).wf(),
            old(self).expects(event),
        ensures
            reading_step(*old(self), event, *final(self), r),
            final(self).wf(),
    {
        let ghost start = *self;
        let query = self.query;
        let mut stage = ReadingStage::Done;
        std::mem::swap(&mut stage, &mut self.stage);
        let (next, action) = match (event, stage) {
            (ReadingEvent::Begun, _) => self.begin(),
            (ReadingEvent::IndexLoaded(Err(why)), _) => (
                ReadingStage::Done,
                ReadingAction::Fail(Failure { message: why }),
            ),
            (ReadingEvent::IndexLoaded(Ok(index)), _) => take_up(query, index, None),
            (
                ReadingEvent::RunLoaded(loaded),
                ReadingStage::LoadingRun { wanted, taken, latest, stale },
            ) => match take_run(query, &wanted[taken.len()], loaded) {
                Err(fault) => give_up(query, stale, fault),
                Ok(run) => {
                    let mut more = taken;
                    more.push(run);
                    read_next(wanted, more, latest, stale)
                },
            },
            (ReadingEvent::Marked, ReadingStage::Marking { stale }) => (
                ReadingStage::Rebuilding { stale },
                ReadingAction::RebuildIndex,
            ),
            (ReadingEvent::IndexRebuilt(Ok(index)), ReadingStage::Rebuilding { stale }) => take_up(
                query,
                index,
                Some(stale),
            ),
            (ReadingEvent::IndexRebuilt(Err(_)), ReadingStage::Rebuilding { stale }) => {
                let message = match query {
                    RunQuery::Listing { .. } => join2("Run index was stale: ", stale.as_str()),
                    RunQuery::Unsettled => join2(
                        "Run index active snapshot was stale: ",
                        stale.as_str(),
                    ),
                };
                (ReadingStage::Done, ReadingAction::Fail(Failure { message }))
            },
            _ => (ReadingStage::Done, ReadingAction::MarkDirty),
        };
        self.stage = next;
        proof {
            lemma_stays_well_formed(start, event, *self, action);
        }
        action
    }
}

proof fn lemma_stays_well_formed(
    s: RunReading,
    event: ReadingEvent,
    next: RunReading,
    action: ReadingAction,
)
    requires
        s.wf(),
        s.expects(event),
        reading_step(s, event, next, action),
    ensures
        next.wf(),
{
    if let ReadingEvent::RunLoaded(loaded) = event {
        if let ReadingStage::LoadingRun { wanted, taken, latest, stale } = s.stage {
            let run = wanted@[taken@.len() as int];
            if reading_fault(s.query, run, loaded) is None {
                let more = taken@.push(loaded->Ok_0->Some_0);
                assert forall|i: int| 0 <= i < more.len() implies is_as_indexed(
                    s.query,
                    wanted@[i],
                    #[trigger] more[i],
                ) by {
                    if i < taken@.len() {
                        assert(more[i] == taken@[i]);
                    }
                }
            }
        }
    }
}

// Laws -----------------------------------------------------------------------
/// One step of a reading.
pub struct ReadingMove {
    pub before: RunReading,
    pub event: ReadingEvent,
    pub after: RunReading,
    pub action: ReadingAction,
}

impl ReadingMove {
    pub open spec fn is_step(self) -> bool {
        &&& self.before.expects(self.event)
        &&& reading_step(self.before, self.event, self.after, self.action)
    }
}

/// The steps of a reading, each from where the one before it ended.
pub open spec fn is_reading_course(steps: Seq<ReadingMove>) -> bool {
    &&& forall|i: int| 0 <= i < steps.len() ==> (#[trigger] steps[i]).is_step()
    &&& forall|i: int, j: int|
        #![trigger steps[i], steps[j]]
        0 <= i && j == i + 1 && j < steps.len() ==> steps[j].before == steps[i].after
}

/// What is handed back after the last record is a record for every run that was wanted,
/// in order, and each says what the index says of its run.
pub proof fn what_is_read_agrees_with_the_index(s: ReadingMove)
    requires
        s.is_step(),
        s.before.wf(),
        s.event is RunLoaded,
    ensures
        s.after.wf(),
        s.action matches ReadingAction::Finish { runs, .. } ==> {
            &&& s.before.stage matches ReadingStage::LoadingRun { wanted, .. }
            &&& runs@.len() == wanted@.len()
            &&& forall|i: int|
                0 <= i < runs@.len() ==> is_as_indexed(
                    s.before.query,
                    wanted@[i],
                    #[trigger] runs@[i],
                )
        },
{
    lemma_stays_well_formed(s.before, s.event, s.after, s.action);
    if let ReadingStage::LoadingRun { wanted, taken, .. } = s.before.stage {
        if let ReadingAction::Finish { runs, .. } = s.action {
            assert forall|i: int| 0 <= i < runs@.len() implies is_as_indexed(
                s.before.query,
                wanted@[i],
                #[trigger] runs@[i],
            ) by {
                if i < taken@.len() {
                    assert(runs@[i] == taken@[i]);
                }
            }
        }
    }
}

/// The index has been made anew, or the reading is over.
spec fn is_second_try(s: RunReading) -> bool {
    match s.stage {
        ReadingStage::LoadingRun { stale, .. } => stale is Some,
        ReadingStage::Done => true,
        _ => false,
    }
}

proof fn lemma_second_try(steps: Seq<ReadingMove>, i: int, j: int)
    requires
        is_reading_course(steps),
        0 <= i < j < steps.len(),
        steps[i].event is IndexRebuilt,
    ensures
        is_second_try(steps[j].before),
    decreases j - i,
{
    assert(steps[j - 1].is_step());
    assert(steps[j].before == steps[j - 1].after);
    if i < j - 1 {
        lemma_second_try(steps, i, j - 1);
    }
}

/// The index is made anew at most once, so that the reading comes to an end.
pub proof fn an_index_is_rebuilt_once(steps: Seq<ReadingMove>, i: int, j: int)
    requires
        is_reading_course(steps),
        0 <= i < j < steps.len(),
        steps[i].event is IndexRebuilt,
    ensures
        steps[j].event !is IndexRebuilt,
        steps[j].action !is RebuildIndex,
        steps[j].action !is MarkDirty,
{
    lemma_second_try(steps, i, j);
    assert(steps[j].is_step());
}

} // verus!
