//! How ended tasks are deleted.
//!
//! A marker is stored before the first file of a task goes, so that a deletion that was
//! broken off can be finished later. The manager forgets the task only when its files are
//! gone.
use vstd::prelude::*;
use vstd::string::*;

use crate::failure::Failure;
use crate::storage_id::{ensure_safe_storage_id, storage_id_fault};
use crate::text::{copy_text, texts};

verus! {

/// Where a deletion stands: what it waits for.
#[derive(Debug, Clone, Copy, PartialEq, Eq, Structural)]
pub enum PruneStage {
    New,
    /// The marker of the first task that is left.
    Marking,
    /// The removal of its artifacts.
    RemovingArtifacts,
    /// The removal of its record.
    RemovingRecord,
    /// The removal of the marker of the task that went last.
    Unmarking,
    Done,
}

/// What happened since the last step.
#[derive(Debug)]
pub enum PruneEvent {
    Begun,
    Marked(Result<(), String>),
    ArtifactsRemoved(Result<(), String>),
    RecordRemoved(Result<(), String>),
    /// The marker was removed, or was left for later.
    Unmarked,
}

/// What to do next.
#[derive(Debug)]
pub enum PruneAction {
    Mark { task_id: String },
    RemoveArtifacts { task_id: String },
    RemoveRecord { task_id: String },
    /// Forget the task and remove its marker.
    Forget { task_id: String },
    Finish,
    Fail(Failure),
}

/// A deletion of tasks.
#[derive(Debug)]
pub struct TaskPruning {
    /// The tasks that are still to be deleted.
    pub left: Vec<String>,
    /// The tasks that are gone.
    pub pruned: Vec<String>,
    pub stage: PruneStage,
}

/// The deletion goes on with the first task that is left.
pub open spec fn prunes_next(
    left: Seq<Seq<char>>,
    stage: PruneStage,
    action: PruneAction,
) -> bool {
    if left.len() == 0 {
        stage is Done && action is Finish
    } else {
        match storage_id_fault("task id"@, left[0]) {
            Some(words) => is_broken_off(words, stage, action),
            None => stage is Marking && (action matches PruneAction::Mark { task_id } && task_id@
                == left[0]),
        }
    }
}

pub open spec fn is_broken_off(words: Seq<char>, stage: PruneStage, action: PruneAction) -> bool {
    stage is Done && (action matches PruneAction::Fail(e) && e@ == words)
}

/// What [`TaskPruning::step`] does.
pub open spec fn prune_step(
    s: TaskPruning,
    event: PruneEvent,
    next: TaskPruning,
    action: PruneAction,
) -> bool {
    let left = texts(s.left@);
    let same = next.left == s.left && next.pruned == s.pruned;
    match event {
        PruneEvent::Begun => same && prunes_next(left, next.stage, action),
        PruneEvent::Marked(Ok(_)) => same && next.stage is RemovingArtifacts && (
        action matches PruneAction::RemoveArtifacts { task_id } && task_id@ == left[0]),
        PruneEvent::ArtifactsRemoved(Ok(_)) => same && next.stage is RemovingRecord && (
        action matches PruneAction::RemoveRecord { task_id } && task_id@ == left[0]),
        PruneEvent::RecordRemoved(Ok(_)) => {
            &&& texts(next.left@) == left.drop_first()
            &&& texts(next.pruned@) == texts(s.pruned@).push(left[0])
            &&& next.stage is Unmarking
            &&& action matches PruneAction::Forget { task_id } && task_id@ == left[0]
        },
        PruneEvent::Unmarked => same && prunes_next(left, next.stage, action),
        PruneEvent::Marked(Err(why)) => same && is_broken_off(why@, next.stage, action),
        PruneEvent::ArtifactsRemoved(Err(why)) => same && is_broken_off(why@, next.stage, action),
        PruneEvent::RecordRemoved(Err(why)) => same && is_broken_off(why@, next.stage, action),
    }
}

impl TaskPruning {
    /// The deletion of `candidates`, in order.
    pub fn new(candidates: Vec<String>) -> (r: Self)
        ensures
            r.left == candidates,
            r.pruned@.len() == 0,
            r.stage is New,
    {
        TaskPruning { left: candidates, pruned: Vec::new(), stage: PruneStage::New }
    }

    /// There is a task to delete while its deletion is under way.
    pub open spec fn wf(self) -> bool {
        self.stage is Marking || self.stage is RemovingArtifacts || self.stage is RemovingRecord
            ==> self.left@.len() > 0
    }

    /// Whether the deletion waits for an event of this sort.
    pub open spec fn expects(self, event: PruneEvent) -> bool {
        match event {
            PruneEvent::Begun => self.stage is New,
            PruneEvent::Marked(_) => self.stage is Marking,
            PruneEvent::ArtifactsRemoved(_) => self.stage is RemovingArtifacts,
            PruneEvent::RecordRemoved(_) => self.stage is RemovingRecord,
            PruneEvent::Unmarked => self.stage is Unmarking,
        }
    }

    fn go_on(&self) -> (r: (PruneStage, PruneAction))
        ensures
            prunes_next(texts(self.left@), r.0, r.1),
    {
        if self.left.len() == 0 {
            return (PruneStage::Done, PruneAction::Finish);
        }
        let first = self.left[0].as_str();
        match ensure_safe_storage_id("task id", first) {
            Err(e) => (PruneStage::Done, PruneAction::Fail(e)),
            Ok(_) => (PruneStage::Marking, PruneAction::Mark { task_id: copy_text(first) }),
        }
    }

    /// Takes what happened and says what to do next.
    pub fn step(&mut self, event: PruneEvent) -> (r: PruneAction)
        requires
            old(self).wf(),
            old(self).expects(event),
        ensures
            prune_step(*old(self), event, *final(self), r),
            final(self).wf(),
    {
        let (stage, action) = match event {
            PruneEvent::Begun | PruneEvent::Unmarked => self.go_on(),
            PruneEvent::Marked(Ok(_)) => (
                PruneStage::RemovingArtifacts,
                PruneAction::RemoveArtifacts { task_id: copy_text(self.left[0].as_str()) },
            ),
            PruneEvent::ArtifactsRemoved(Ok(_)) => (
                PruneStage::RemovingRecord,
                PruneAction::RemoveRecord { task_id: copy_text(self.left[0].as_str()) },
            ),
            PruneEvent::RecordRemoved(Ok(_)) => {
                let ghost left = texts(self.left@);
                let ghost pruned = texts(self.pruned@);
                let first = self.left.remove(0);
                assert(texts(self.left@) =~= left.drop_first());
                self.pruned.push(copy_text(first.as_str()));
                assert(texts(self.pruned@) =~= pruned.push(left[0]));
                (PruneStage::Unmarking, PruneAction::Forget { task_id: first })
            },
            PruneEvent::Marked(Err(why)) => (
                PruneStage::Done,
                PruneAction::Fail(Failure { message: why }),
            ),
            PruneEvent::ArtifactsRemoved(Err(why)) => (
                PruneStage::Done,
                PruneAction::Fail(Failure { message: why }),
            ),
            PruneEvent::RecordRemoved(Err(why)) => (
                PruneStage::Done,
                PruneAction::Fail(Failure { message: why }),
            ),
        };
        self.stage = stage;
        action
    }
}

// Laws -----------------------------------------------------------------------
/// One step of a deletion.
pub struct PruneMove {
    pub before: TaskPruning,
    pub event: PruneEvent,
    pub after: TaskPruning,
    pub action: PruneAction,
}

impl PruneMove {
    pub open spec fn is_step(self) -> bool {
        &&& self.before.wf()
        &&& self.before.expects(self.event)
        &&& prune_step(self.before, self.event, self.after, self.action)
    }
}

/// The first file of a task goes only once its marker is stored, its record goes after
/// its artifacts, and it is forgotten only once its record is gone. What fails breaks the
/// deletion off, and the task is not forgotten.
pub proof fn files_go_after_their_marker(s: PruneMove)
    requires
        s.is_step(),
    ensures
        s.action is RemoveArtifacts <==> (s.event matches PruneEvent::Marked(r) && r is Ok),
        s.action is RemoveRecord <==> (s.event matches PruneEvent::ArtifactsRemoved(r) && r is Ok),
        s.action is Forget <==> (s.event matches PruneEvent::RecordRemoved(r) && r is Ok),
        s.action is Fail ==> s.after.pruned == s.before.pruned,
{
}

/// Every task that is gone was to be deleted, and the order is kept: what is gone and what
/// is left are together what there was to delete.
pub proof fn only_candidates_are_pruned(s: PruneMove)
    requires
        s.is_step(),
    ensures
        texts(s.after.pruned@) + texts(s.after.left@) == texts(s.before.pruned@) + texts(
            s.before.left@,
        ),
{
    let left = texts(s.before.left@);
    let pruned = texts(s.before.pruned@);
    if s.event is RecordRemoved && s.event->RecordRemoved_0 is Ok {
        assert(pruned.push(left[0]) + left.drop_first() =~= pruned + left);
    }
}

} // verus!
