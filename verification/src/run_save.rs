//! How a run is stored together with its entry in the index.
//!
//! The record of the run is the authority; the index only follows it. So the index is
//! marked as out of date before the record is written, and the mark goes away only with
//! an index that knows the run.
use vstd::prelude::*;
use vstd::string::*;

use crate::automation::{is_terminal_run_status, AutomationRunRecord};
use crate::failure::Failure;
use crate::pending::{run_fault, validate_run_record};
use crate::run_index::{
    is_thinned, latest_terminal, refresh_latest_terminal_at, thin_index, AutomationRunIndex,
    AutomationRunIndexEntry,
};
use crate::text::{copy_text, texts};

verus! {

/// Where the storing of a run stands: what it waits for.
#[derive(Debug)]
pub enum RunSaveStage {
    New,
    /// The index, where it can be had.
    Loading,
    /// The mark that the index is out of date.
    Marking { index: Option<AutomationRunIndex> },
    /// The record of the run.
    Writing { index: Option<AutomationRunIndex> },
    /// The removal of runs that are no longer kept.
    Retaining { index: AutomationRunIndex },
    /// The index that knows the run.
    SavingIndex { index: AutomationRunIndex },
    /// An index that is made anew.
    Rebuilding,
    Done,
}

/// What happened since the last step.
#[derive(Debug)]
pub enum RunSaveEvent {
    Begun,
    IndexLoaded(Option<AutomationRunIndex>),
    Marked(Result<(), String>),
    Written(Result<(), String>),
    /// The runs whose records are gone.
    Retained { removed: Vec<String> },
    /// The index was stored and the mark removed, or not: the mark tells.
    IndexSaved,
    Rebuilt,
}

/// What to do next.
#[derive(Debug)]
pub enum RunSaveAction {
    LoadIndex,
    MarkDirty,
    WriteRun,
    /// Remove finished runs that are no longer kept.
    Retain,
    SaveIndex,
    RebuildIndex,
    Finish,
    Fail(Failure),
}

/// A run that is being stored.
#[derive(Debug)]
pub struct RunSave {
    pub run: AutomationRunRecord,
    pub stage: RunSaveStage,
}

/// The index once the run has been entered.
pub open spec fn is_entered(
    old: AutomationRunIndex,
    run: AutomationRunRecord,
    new: AutomationRunIndex,
) -> bool {
    &&& new.wf()
    &&& new == (AutomationRunIndex {
        entries: new.entries,
        latest_terminal_at: new.latest_terminal_at,
        ..old
    })
    &&& new.entry(run.id@) == Some(AutomationRunIndexEntry::of_run(run))
    &&& forall|id: Seq<char>| id != run.id@ ==> #[trigger] new.entry(id) == old.entry(id)
}

/// What [`RunSave::step`] does.
pub open spec fn run_save_step(
    s: RunSave,
    event: RunSaveEvent,
    next: RunSave,
    action: RunSaveAction,
) -> bool {
    &&& next.run == s.run
    &&& match event {
        RunSaveEvent::Begun => match run_fault(s.run, s.run.automation_id@, s.run.id@) {
            Some(words) => next.stage is Done && (action matches RunSaveAction::Fail(e) && e@
                == words),
            None => next.stage is Loading && action is LoadIndex,
        },
        RunSaveEvent::IndexLoaded(index) => next.stage == (RunSaveStage::Marking { index })
            && action is MarkDirty,
        RunSaveEvent::Marked(Err(why)) => next.stage is Done && (
        action matches RunSaveAction::Fail(e) && e@ == why@),
        RunSaveEvent::Marked(Ok(_)) => (s.stage matches RunSaveStage::Marking { index }
            && next.stage == (RunSaveStage::Writing { index })) && action is WriteRun,
        RunSaveEvent::Written(Err(why)) => next.stage is Done && (
        action matches RunSaveAction::Fail(e) && e@ == why@),
        RunSaveEvent::Written(Ok(_)) => s.stage matches RunSaveStage::Writing { index }
            && match index {
            None => next.stage is Rebuilding && action is RebuildIndex,
            Some(old) => if s.run.status.terminal() {
                &&& next.stage matches RunSaveStage::Retaining { index: new } && is_entered(
                    old,
                    s.run,
                    new,
                )
                &&& action is Retain
            } else {
                &&& next.stage matches RunSaveStage::SavingIndex { index: new } && is_entered(
                    old,
                    s.run,
                    new,
                ) && new.latest_terminal_at == latest_terminal(new.entries@)
                &&& action is SaveIndex
            },
        },
        RunSaveEvent::Retained { removed } => s.stage matches RunSaveStage::Retaining {
            index: old,
        } && {
            &&& next.stage matches RunSaveStage::SavingIndex { index: new } && is_thinned(
                old,
                texts(removed@),
                new,
            )
            &&& action is SaveIndex
        },
        RunSaveEvent::IndexSaved => next.stage is Done && action is Finish,
        RunSaveEvent::Rebuilt => next.stage is Done && action is Finish,
    }
}

impl RunSave {
    /// The storing of `run`.
    pub fn new(run: AutomationRunRecord) -> (r: Self)
        ensures
            r == (RunSave { run, stage: RunSaveStage::New }),
    {
        RunSave { run, stage: RunSaveStage::New }
    }

    /// The index that is carried along is in order.
    pub open spec fn wf(self) -> bool {
        match self.stage {
            RunSaveStage::Marking { index } => index matches Some(i) ==> i.wf(),
            RunSaveStage::Writing { index } => index matches Some(i) ==> i.wf(),
            RunSaveStage::Retaining { index } => index.wf(),
            RunSaveStage::SavingIndex { index } => index.wf(),
            _ => true,
        }
    }

    /// Whether the run waits for an event of this sort.
    pub open spec fn expects(self, event: RunSaveEvent) -> bool {
        match event {
            RunSaveEvent::Begun => self.stage is New,
            RunSaveEvent::IndexLoaded(index) => self.stage is Loading && (index matches Some(i)
                ==> i.wf()),
            RunSaveEvent::Marked(_) => self.stage is Marking,
            RunSaveEvent::Written(_) => self.stage is Writing,
            RunSaveEvent::Retained { .. } => self.stage is Retaining,
            RunSaveEvent::IndexSaved => self.stage is SavingIndex,
            RunSaveEvent::Rebuilt => self.stage is Rebuilding,
        }
    }

    fn enter(&mut self, index: Option<AutomationRunIndex>) -> (r: RunSaveAction)
        requires
            old(self).stage is Done,
            index matches Some(i) ==> i.wf(),
        ensures
            run_save_step(
                (RunSave { stage: RunSaveStage::Writing { index }, ..*old(self) }),
                RunSaveEvent::Written(Ok(())),
                *final(self),
                r,
            ),
            final(self).wf(),
    {
        match index {
            None => {
                self.stage = RunSaveStage::Rebuilding;
                RunSaveAction::RebuildIndex
            },
            Some(known) => {
                let mut index = known;
                index.put(
                    copy_text(self.run.id.as_str()),
                    AutomationRunIndexEntry::from_run(&self.run),
                );
                if is_terminal_run_status(self.run.status) {
                    self.stage = RunSaveStage::Retaining { index };
                    RunSaveAction::Retain
                } else {
                    let ghost entered = index;
                    refresh_latest_terminal_at(&mut index);
                    assert forall|id: Seq<char>| #[trigger]
                        index.entry(id) == entered.entry(id) by {}
                    self.stage = RunSaveStage::SavingIndex { index };
                    RunSaveAction::SaveIndex
                }
            },
        }
    }

    /// Takes what happened and says what to do next.
    pub fn step(&mut self, event: RunSaveEvent) -> (r: RunSaveAction)
        requires
            old(self).wf(),
            old(self).expects(event),
        ensures
            run_save_step(*old(self), event, *final(self), r),
            final(self).wf(),
    {
        let mut stage = RunSaveStage::Done;
        std::mem::swap(&mut stage, &mut self.stage);
        match (event, stage) {
            (RunSaveEvent::Begun, _) => match validate_run_record(
                &self.run,
                self.run.automation_id.as_str(),
                self.run.id.as_str(),
            ) {
                Err(e) => RunSaveAction::Fail(e),
                Ok(_) => {
                    self.stage = RunSaveStage::Loading;
                    RunSaveAction::LoadIndex
                },
            },
            (RunSaveEvent::IndexLoaded(index), _) => {
                self.stage = RunSaveStage::Marking { index };
                RunSaveAction::MarkDirty
            },
            (RunSaveEvent::Marked(Err(why)), _) => RunSaveAction::Fail(Failure { message: why }),
            (RunSaveEvent::Marked(Ok(_)), RunSaveStage::Marking { index }) => {
                self.stage = RunSaveStage::Writing { index };
                RunSaveAction::WriteRun
            },
            (RunSaveEvent::Written(Err(why)), _) => RunSaveAction::Fail(Failure { message: why }),
            (RunSaveEvent::Written(Ok(_)), RunSaveStage::Writing { index }) => self.enter(index),
            (RunSaveEvent::Retained { removed }, RunSaveStage::Retaining { index }) => {
                let index = thin_index(index, &removed);
                self.stage = RunSaveStage::SavingIndex { index };
                RunSaveAction::SaveIndex
            },
            _ => RunSaveAction::Finish,
        }
    }
}

// Laws -----------------------------------------------------------------------
/// One step of the storing of a run.
pub struct RunSaveMove {
    pub before: RunSave,
    pub event: RunSaveEvent,
    pub after: RunSave,
    pub action: RunSaveAction,
}

impl RunSaveMove {
    pub open spec fn is_step(self) -> bool {
        &&& self.before.expects(self.event)
        &&& run_save_step(self.before, self.event, self.after, self.action)
    }
}

/// A record is written only in the step after the index was marked as out of date. Where
/// the mark cannot be set, nothing is written.
pub proof fn records_follow_their_mark(s: RunSaveMove)
    requires
        s.is_step(),
    ensures
        s.action is WriteRun <==> (s.event matches RunSaveEvent::Marked(r) && r is Ok),
        s.event matches RunSaveEvent::Marked(r) && r is Err ==> s.action is Fail,
{
}

/// Once the record is written, the run counts as stored, whatever becomes of the index.
pub proof fn written_records_count(s: RunSaveMove)
    requires
        s.is_step(),
        (s.event matches RunSaveEvent::Written(r) && r is Ok) || s.before.stage is Retaining
            || s.before.stage is SavingIndex || s.before.stage is Rebuilding,
    ensures
        s.action !is Fail,
        s.action !is WriteRun,
{
}

} // verus!
