//! How finished runs are removed.
//!
//! Beyond the newest ones an automation's finished runs are removed, unless the journal
//! still holds them or the host wants to keep them. Where the journal cannot be trusted,
//! or the host cannot answer, nothing is removed.
use vstd::prelude::*;
use vstd::string::*;

use crate::run_index::{
    are_surplus, kept_out, surplus_runs, without, AutomationRunIndex, PendingScan,
};
use crate::run_index_laws::surplus_is_the_oldest_finished;
use crate::text::{copy_text, texts};

verus! {

/// What the host says of a run that could be removed.
#[derive(Debug, Clone, Copy, PartialEq, Eq, Structural)]
pub enum GuardAnswer {
    Keep,
    Release,
    /// The record is missing or cannot be read, or the host could not answer.
    Unknown,
}

/// Where the removal stands: what it waits for.
#[derive(Debug)]
pub enum RetentionStage {
    New,
    /// The journal.
    Scanning,
    /// The host's word on the first of the `open` runs.
    Asking { open: Vec<String>, released: Vec<String> },
    /// The removal of the first of the `doomed` runs.
    Removing { doomed: Vec<String>, gone: Vec<String> },
    Done,
}

/// What happened since the last step.
#[derive(Debug)]
pub enum RetentionEvent {
    Begun,
    Scanned(PendingScan),
    Answered(GuardAnswer),
    /// Whether the record is gone.
    Removed { gone: bool },
}

/// What to do next.
#[derive(Debug)]
pub enum RetentionAction {
    Scan,
    /// Ask the host about a run.
    Ask { run_id: String },
    /// Remove the record of a run.
    Remove { run_id: String },
    /// The runs whose records are gone.
    Finish { gone: Vec<String> },
}

/// The removal of an automation's surplus runs.
#[derive(Debug)]
pub struct Retention {
    /// The finished runs beyond the newest ones.
    pub surplus: Vec<String>,
    /// The runs that the journal holds.
    pub held: Vec<String>,
    /// Whether there is a host to ask.
    pub guarded: bool,
    pub stage: RetentionStage,
}

/// Nothing is left to do.
pub open spec fn is_over(
    gone: Seq<Seq<char>>,
    stage: RetentionStage,
    action: RetentionAction,
) -> bool {
    stage is Done && (action matches RetentionAction::Finish { gone: g } && texts(g@) == gone)
}

/// The removal goes on with the first of the `doomed` runs.
pub open spec fn removes_next(
    doomed: Seq<Seq<char>>,
    gone: Seq<Seq<char>>,
    stage: RetentionStage,
    action: RetentionAction,
) -> bool {
    if doomed.len() == 0 {
        is_over(gone, stage, action)
    } else {
        &&& stage matches RetentionStage::Removing { doomed: d, gone: g } && texts(d@) == doomed
            && texts(g@) == gone
        &&& action matches RetentionAction::Remove { run_id } && run_id@ == doomed[0]
    }
}

/// The host is asked about the first of the `open` runs, or there is no more to ask.
pub open spec fn asks_next(
    open: Seq<Seq<char>>,
    released: Seq<Seq<char>>,
    stage: RetentionStage,
    action: RetentionAction,
) -> bool {
    if open.len() == 0 {
        removes_next(released, Seq::empty(), stage, action)
    } else {
        &&& stage matches RetentionStage::Asking { open: o, released: r } && texts(o@) == open
            && texts(r@) == released
        &&& action matches RetentionAction::Ask { run_id } && run_id@ == open[0]
    }
}

/// What [`Retention::step`] does.
pub open spec fn retention_step(
    s: Retention,
    event: RetentionEvent,
    next: Retention,
    action: RetentionAction,
) -> bool {
    &&& next.surplus == s.surplus
    &&& next.guarded == s.guarded
    &&& match event {
        RetentionEvent::Begun => next.held == s.held && if s.surplus@.len() == 0 {
            is_over(Seq::empty(), next.stage, action)
        } else {
            next.stage is Scanning && action is Scan
        },
        RetentionEvent::Scanned(PendingScan::Runs(held)) => next.held == held && {
            let open = kept_out(texts(s.surplus@), texts(held@));
            if s.guarded {
                asks_next(open, Seq::empty(), next.stage, action)
            } else {
                removes_next(open, Seq::empty(), next.stage, action)
            }
        },
        RetentionEvent::Scanned(_) => next.held == s.held && is_over(
            Seq::empty(),
            next.stage,
            action,
        ),
        RetentionEvent::Answered(answer) => next.held == s.held && (
        s.stage matches RetentionStage::Asking { open, released } && match answer {
            GuardAnswer::Keep => asks_next(
                texts(open@).drop_first(),
                texts(released@),
                next.stage,
                action,
            ),
            GuardAnswer::Release => asks_next(
                texts(open@).drop_first(),
                texts(released@).push(texts(open@)[0]),
                next.stage,
                action,
            ),
            GuardAnswer::Unknown => is_over(Seq::empty(), next.stage, action),
        }),
        RetentionEvent::Removed { gone: done } => next.held == s.held && (
        s.stage matches RetentionStage::Removing { doomed, gone } && removes_next(
            texts(doomed@).drop_first(),
            if done {
                texts(gone@).push(texts(doomed@)[0])
            } else {
                texts(gone@)
            },
            next.stage,
            action,
        )),
    }
}

/// Every one of the runs is surplus and not held by the journal.
pub open spec fn may_go(ids: Seq<Seq<char>>, surplus: Seq<Seq<char>>, held: Seq<Seq<char>>) -> bool {
    forall|i: int|
        #![trigger ids[i]]
        0 <= i < ids.len() ==> surplus.contains(ids[i]) && !held.contains(ids[i])
}

fn none() -> (r: Vec<String>)
    ensures
        texts(r@) == Seq::<Seq<char>>::empty(),
{
    let list: Vec<String> = Vec::new();
    assert(texts(list@) =~= Seq::empty());
    list
}

fn remove_next(doomed: Vec<String>, gone: Vec<String>) -> (r: (RetentionStage, RetentionAction))
    ensures
        removes_next(texts(doomed@), texts(gone@), r.0, r.1),
{
    if doomed.len() == 0 {
        (RetentionStage::Done, RetentionAction::Finish { gone })
    } else {
        let run_id = copy_text(doomed[0].as_str());
        (RetentionStage::Removing { doomed, gone }, RetentionAction::Remove { run_id })
    }
}

fn ask_next(open: Vec<String>, released: Vec<String>) -> (r: (RetentionStage, RetentionAction))
    ensures
        asks_next(texts(open@), texts(released@), r.0, r.1),
{
    if open.len() == 0 {
        remove_next(released, none())
    } else {
        let run_id = copy_text(open[0].as_str());
        (RetentionStage::Asking { open, released }, RetentionAction::Ask { run_id })
    }
}

/// Takes the first text off a list.
fn take_first(list: Vec<String>) -> (r: (String, Vec<String>))
    requires
        list@.len() > 0,
    ensures
        r.0@ == texts(list@)[0],
        texts(r.1@) == texts(list@).drop_first(),
{
    let mut rest = list;
    let first = rest.remove(0);
    assert(texts(rest@) =~= texts(list@).drop_first());
    (first, rest)
}

fn append(list: Vec<String>, text: String) -> (r: Vec<String>)
    ensures
        texts(r@) == texts(list@).push(text@),
{
    let mut out = list;
    out.push(text);
    assert(texts(out@) =~= texts(list@).push(text@));
    out
}

impl Retention {
    /// The removal of the finished runs beyond the newest `max`.
    pub fn new(index: &AutomationRunIndex, max: usize, guarded: bool) -> (r: Self)
        requires
            index.wf(),
        ensures
            are_surplus(index.entries@, max, texts(r.surplus@)),
            r.held@.len() == 0,
            r.guarded == guarded,
            r.stage is New,
            r.wf(),
    {
        let surplus = surplus_runs(index, max);
        proof {
            surplus_is_the_oldest_finished(index.entries@, max, texts(surplus@));
        }
        Retention { surplus, held: Vec::new(), guarded, stage: RetentionStage::New }
    }

    /// What is asked about or removed is surplus, not held by the journal, and stands
    /// nowhere twice.
    pub open spec fn wf(self) -> bool {
        let surplus = texts(self.surplus@);
        let held = texts(self.held@);
        &&& surplus.no_duplicates()
        &&& match self.stage {
            RetentionStage::Asking { open, released } => {
                &&& open@.len() > 0
                &&& may_go(texts(open@), surplus, held)
                &&& may_go(texts(released@), surplus, held)
                &&& (texts(released@) + texts(open@)).no_duplicates()
            },
            RetentionStage::Removing { doomed, gone } => {
                &&& doomed@.len() > 0
                &&& may_go(texts(doomed@), surplus, held)
                &&& texts(doomed@).no_duplicates()
            },
            _ => true,
        }
    }

    /// Whether the removal waits for an event of this sort.
    pub open spec fn expects(self, event: RetentionEvent) -> bool {
        match event {
            RetentionEvent::Begun => self.stage is New,
            RetentionEvent::Scanned(_) => self.stage is Scanning,
            RetentionEvent::Answered(_) => self.stage is Asking,
            RetentionEvent::Removed { .. } => self.stage is Removing,
        }
    }

    /// Takes what happened and says what to do next.
    pub fn step(&mut self, event: RetentionEvent) -> (r: RetentionAction)
        requires
            old(self).wf(),
            old(self).expects(event),
        ensures
            retention_step(*old(self), event, *final(self), r),
            final(self).wf(),
    {
        let ghost start = *self;
        let mut stage = RetentionStage::Done;
        std::mem::swap(&mut stage, &mut self.stage);
        let (next, action) = match (event, stage) {
            (RetentionEvent::Begun, _) => if self.surplus.len() == 0 {
                (RetentionStage::Done, RetentionAction::Finish { gone: none() })
            } else {
                (RetentionStage::Scanning, RetentionAction::Scan)
            },
            (RetentionEvent::Scanned(PendingScan::Runs(held)), _) => {
                let open = without(&self.surplus, &held);
                self.held = held;
                if self.guarded {
                    ask_next(open, none())
                } else {
                    remove_next(open, none())
                }
            },
            (
                RetentionEvent::Answered(GuardAnswer::Keep),
                RetentionStage::Asking { open, released },
            ) => {
                let (_, rest) = take_first(open);
                ask_next(rest, released)
            },
            (
                RetentionEvent::Answered(GuardAnswer::Release),
                RetentionStage::Asking { open, released },
            ) => {
                let (first, rest) = take_first(open);
                ask_next(rest, append(released, first))
            },
            (RetentionEvent::Removed { gone: done }, RetentionStage::Removing { doomed, gone }) => {
                let (first, rest) = take_first(doomed);
                if done {
                    remove_next(rest, append(gone, first))
                } else {
                    remove_next(rest, gone)
                }
            },
            _ => (RetentionStage::Done, RetentionAction::Finish { gone: none() }),
        };
        self.stage = next;
        proof {
            lemma_stays_well_formed(start, event, *self, action);
        }
        action
    }
}

proof fn lemma_kept_out(ids: Seq<Seq<char>>, held: Seq<Seq<char>>)
    ensures
        may_go(kept_out(ids, held), ids, held),
        ids.no_duplicates() ==> kept_out(ids, held).no_duplicates(),
    decreases ids.len(),
{
    reveal(Seq::filter);
    if ids.len() > 0 {
        let init = ids.drop_last();
        let out = kept_out(ids, held);
        lemma_kept_out(init, held);
        assert forall|i: int| #![trigger out[i]] 0 <= i < out.len() implies ids.contains(out[i])
            && !held.contains(out[i]) by {
            if i < kept_out(init, held).len() {
                assert(out[i] == kept_out(init, held)[i]);
                let k = choose|k: int| 0 <= k < init.len() && init[k] == out[i];
                assert(ids[k] == out[i]);
            } else {
                assert(ids[ids.len() - 1] == out[i]);
            }
        }
        if ids.no_duplicates() {
            assert(init.no_duplicates());
            let before = kept_out(init, held);
            assert forall|i: int, j: int| 0 <= i < j < out.len() implies out[i] != out[j] by {
                if j == before.len() {
                    assert(out[i] == before[i]);
                    let k = choose|k: int| 0 <= k < init.len() && init[k] == before[i];
                    assert(ids[k] != ids[ids.len() - 1]);
                } else {
                    assert(before[i] != before[j]);
                }
            }
        }
    }
}

proof fn lemma_stays_well_formed(
    s: Retention,
    event: RetentionEvent,
    next: Retention,
    action: RetentionAction,
)
    requires
        s.wf(),
        s.expects(event),
        retention_step(s, event, next, action),
    ensures
        next.wf(),
{
    let surplus = texts(s.surplus@);
    match event {
        RetentionEvent::Scanned(PendingScan::Runs(held)) => {
            lemma_kept_out(surplus, texts(held@));
            let open = kept_out(surplus, texts(held@));
            assert(Seq::<Seq<char>>::empty() + open =~= open);
        },
        RetentionEvent::Answered(answer) => {
            if let RetentionStage::Asking { open, released } = s.stage {
                let o = texts(open@);
                let r = texts(released@);
                let all = r + o;
                let rest = o.drop_first();
                assert forall|i: int| #![trigger rest[i]] 0 <= i < rest.len() implies rest[i] == o[i
                    + 1] by {}
                assert(may_go(rest, surplus, texts(s.held@)));
                assert(may_go(r.push(o[0]), surplus, texts(s.held@)));
                assert((r.push(o[0]) + rest) =~= all);
                assert((r + rest).no_duplicates()) by {
                    assert forall|i: int, j: int| 0 <= i < j < (r + rest).len() implies (r + rest)[i]
                        != (r + rest)[j] by {
                        let a = if i < r.len() {
                            i
                        } else {
                            i + 1
                        };
                        let b = if j < r.len() {
                            j
                        } else {
                            j + 1
                        };
                        assert(all[a] == (r + rest)[i] && all[b] == (r + rest)[j]);
                    }
                }
                assert(r.no_duplicates()) by {
                    assert forall|i: int, j: int| 0 <= i < j < r.len() implies r[i] != r[j] by {
                        assert(all[i] == r[i] && all[j] == r[j]);
                    }
                }
                if rest.len() == 0 {
                    assert(r.push(o[0]) =~= all);
                }
            }
        },
        RetentionEvent::Removed { .. } => {
            if let RetentionStage::Removing { doomed, gone } = s.stage {
                let d = texts(doomed@);
                let rest = d.drop_first();
                assert forall|i: int| #![trigger rest[i]] 0 <= i < rest.len() implies rest[i] == d[i
                    + 1] by {}
            }
        },
        _ => {},
    }
}

// Laws -----------------------------------------------------------------------
/// One step of a removal.
pub struct RetentionMove {
    pub before: Retention,
    pub event: RetentionEvent,
    pub after: Retention,
    pub action: RetentionAction,
}

impl RetentionMove {
    pub open spec fn is_step(self) -> bool {
        &&& self.before.expects(self.event)
        &&& retention_step(self.before, self.event, self.after, self.action)
    }
}

/// The steps of a removal, each from where the one before it ended.
pub open spec fn is_retention_course(steps: Seq<RetentionMove>) -> bool {
    &&& forall|i: int| 0 <= i < steps.len() ==> (#[trigger] steps[i]).is_step()
    &&& forall|i: int, j: int|
        #![trigger steps[i], steps[j]]
        0 <= i && j == i + 1 && j < steps.len() ==> steps[j].before == steps[i].after
}

/// No run is removed but a surplus one that the journal does not hold.
pub proof fn journaled_runs_are_not_removed(s: RetentionMove)
    requires
        s.is_step(),
        s.before.wf(),
    ensures
        s.after.wf(),
        s.action matches RetentionAction::Remove { run_id } ==> {
            &&& texts(s.after.surplus@).contains(run_id@)
            &&& !texts(s.after.held@).contains(run_id@)
        },
{
    lemma_stays_well_formed(s.before, s.event, s.after, s.action);
    if let RetentionAction::Remove { run_id } = s.action {
        if let RetentionStage::Removing { doomed, gone } = s.after.stage {
            assert(texts(doomed@)[0] == run_id@);
        }
    }
}

/// Once a run is being removed, nobody is asked any more.
proof fn lemma_removal_comes_last(steps: Seq<RetentionMove>, i: int, j: int)
    requires
        is_retention_course(steps),
        0 <= i < j < steps.len(),
        steps[i].action is Remove,
    ensures
        steps[j].before.stage is Removing,
    decreases j - i,
{
    if j == i + 1 {
        assert(steps[i].is_step());
        assert(steps[j].before == steps[i].after);
    } else {
        lemma_removal_comes_last(steps, i, j - 1);
        assert(steps[j - 1].is_step());
        assert(steps[j].is_step());
        assert(steps[j].before == steps[j - 1].after);
    }
}

/// Where the journal cannot be trusted or the host cannot answer, no run is removed:
/// not in that step, nor before or after it.
pub proof fn doubt_removes_nothing(steps: Seq<RetentionMove>, k: int, i: int)
    requires
        is_retention_course(steps),
        0 <= k < steps.len(),
        0 <= i < steps.len(),
        match steps[k].event {
            RetentionEvent::Scanned(scan) => !(scan is Runs),
            RetentionEvent::Answered(answer) => answer is Unknown,
            _ => false,
        },
    ensures
        steps[i].action !is Remove,
        steps[k].action matches RetentionAction::Finish { gone } && gone@.len() == 0,
{
    assert(steps[k].is_step());
    if let RetentionAction::Finish { gone } = steps[k].action {
        assert(texts(gone@).len() == gone@.len());
    }
    if i < k && steps[i].action is Remove {
        lemma_removal_comes_last(steps, i, k);
    }
    if i > k {
        let next = steps[k + 1];
        assert(next.is_step());
        assert(next.before == steps[k].after);
    }
}

/// A run that the removal does not come back to.
spec fn is_passed(s: Retention, id: Seq<char>) -> bool {
    match s.stage {
        RetentionStage::Asking { open, released } => !texts(open@).contains(id) && !texts(
            released@,
        ).contains(id),
        RetentionStage::Removing { doomed, gone } => !texts(doomed@).contains(id),
        RetentionStage::Done => true,
        _ => false,
    }
}

proof fn lemma_drop_first_contains(list: Seq<Seq<char>>, id: Seq<char>)
    requires
        list.len() > 0,
        list.drop_first().contains(id),
    ensures
        list.contains(id),
{
    let rest = list.drop_first();
    let k = choose|k: int| 0 <= k < rest.len() && rest[k] == id;
    assert(list[k + 1] == id);
}

proof fn lemma_stays_passed(s: RetentionMove, id: Seq<char>)
    requires
        s.is_step(),
        s.before.wf(),
        is_passed(s.before, id),
    ensures
        is_passed(s.after, id),
        s.action matches RetentionAction::Remove { run_id } ==> run_id@ != id,
{
    match s.before.stage {
        RetentionStage::Asking { open, released } => {
            let o = texts(open@);
            let r = texts(released@);
            let rest = o.drop_first();
            if rest.contains(id) {
                lemma_drop_first_contains(o, id);
            }
            assert(o.contains(o[0]));
            if r.push(o[0]).contains(id) {
                let k = choose|k: int| 0 <= k < r.push(o[0]).len() && r.push(o[0])[k] == id;
                if k < r.len() {
                    assert(r[k] == id);
                }
            }
        },
        RetentionStage::Removing { doomed, gone } => {
            let d = texts(doomed@);
            if d.drop_first().contains(id) {
                lemma_drop_first_contains(d, id);
            }
        },
        _ => {},
    }
    if let RetentionAction::Remove { run_id } = s.action {
        if let RetentionStage::Removing { doomed, gone } = s.after.stage {
            assert(texts(doomed@)[0] == run_id@);
        }
    }
}

proof fn lemma_passed_for_good(steps: Seq<RetentionMove>, k: int, i: int, id: Seq<char>)
    requires
        is_retention_course(steps),
        0 <= k < i < steps.len(),
        steps[k].after.wf(),
        is_passed(steps[k].after, id),
    ensures
        steps[i].after.wf(),
        is_passed(steps[i].after, id),
        steps[i].action matches RetentionAction::Remove { run_id } ==> run_id@ != id,
    decreases i - k,
{
    if i > k + 1 {
        lemma_passed_for_good(steps, k, i - 1, id);
    }
    assert(steps[i - 1].is_step());
    assert(steps[i].is_step());
    assert(steps[i].before == steps[i - 1].after);
    lemma_stays_well_formed(steps[i].before, steps[i].event, steps[i].after, steps[i].action);
    lemma_stays_passed(steps[i], id);
}

/// A run that the host wants to keep is not removed afterwards.
pub proof fn runs_that_the_host_keeps_stay(steps: Seq<RetentionMove>, k: int, i: int, id: Seq<char>)
    requires
        is_retention_course(steps),
        0 <= k < i < steps.len(),
        steps[k].before.wf(),
        steps[k].event == RetentionEvent::Answered(GuardAnswer::Keep),
        steps[k].before.stage matches RetentionStage::Asking { open, .. } && texts(open@)[0] == id,
    ensures
        steps[i].action matches RetentionAction::Remove { run_id } ==> run_id@ != id,
{
    let s = steps[k];
    assert(s.is_step());
    lemma_stays_well_formed(s.before, s.event, s.after, s.action);
    if let RetentionStage::Asking { open, released } = s.before.stage {
        let o = texts(open@);
        let r = texts(released@);
        let all = r + o;
        assert(!o.drop_first().contains(id)) by {
            if o.drop_first().contains(id) {
                let rest = o.drop_first();
                let m = choose|m: int| 0 <= m < rest.len() && rest[m] == id;
                assert(all[r.len() + m + 1] == id && all[r.len() as int] == id);
            }
        }
        assert(!r.contains(id)) by {
            if r.contains(id) {
                let m = choose|m: int| 0 <= m < r.len() && r[m] == id;
                assert(all[m] == id && all[r.len() as int] == id);
            }
        }
    }
    lemma_passed_for_good(steps, k, i, id);
}

} // verus!
