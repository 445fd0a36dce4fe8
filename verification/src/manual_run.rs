//! Runs that are asked for by hand.
//!
//! The caller names the run by an identifier of its own. Asked for twice under one
//! identifier, a run is queued once: what was left undone is made up for, and the run
//! that is stored is handed back.
use vstd::prelude::*;
use vstd::string::*;

use crate::automation::{AutomationRecord, AutomationRunRecord};
use crate::enqueue::{
    after_manual, is_enqueued, is_task_request, record_enqueue, settle_manual, task_request_for,
    QueuedTask,
};
use crate::failure::Failure;
use crate::ids::{is_uuid_text, new_uuid, uuid_of};
use crate::pending::{invalid_invocation, is_manual_record, manual_id, PendingEnqueueRecord};
use crate::task::NewTaskRequest;
use crate::text::copy_text;
use crate::time::Timestamp;

verus! {

/// A name for a run that its caller does not name.
pub fn new_invocation() -> (r: String)
    ensures
        is_uuid_text(r@),
{
    new_uuid()
}

/// Where a run by hand stands: what it waits for.
#[derive(Debug)]
pub enum ManualStage {
    New,
    /// The stored run is being looked up.
    LookingUp { pending: PendingEnqueueRecord },
    /// There is a stored run; its journal record is being looked up.
    Checking { run: AutomationRunRecord },
    /// There is no stored run; a journal record of it is being looked up.
    Resuming { pending: PendingEnqueueRecord },
    /// The journal record is being stored.
    SavingPending { pending: PendingEnqueueRecord },
    /// The task is being queued.
    Enqueueing { pending: PendingEnqueueRecord },
    /// The run is being stored.
    SavingRun { run: AutomationRunRecord },
    /// The automation is being stored.
    SavingAutomation { run: AutomationRunRecord },
    /// The journal record is being deleted.
    Deleting { run: AutomationRunRecord },
    Done,
}

/// What happened since the last step.
#[derive(Debug)]
pub enum ManualEvent {
    Begun,
    RunLoaded(Option<AutomationRunRecord>),
    PendingLoaded(Option<PendingEnqueueRecord>),
    PendingSaved,
    Enqueued { outcome: Result<QueuedTask, String>, at: Timestamp },
    RunSaved { at: Timestamp },
    AutomationSaved,
    PendingDeleted,
}

/// What to do next. The records to be stored stand in the [`ManualRun`].
#[derive(Debug)]
pub enum ManualAction {
    LoadRun { run_id: String },
    LoadPending { run_id: String },
    SavePending,
    /// Queue a task under the key of the journal record.
    Enqueue(NewTaskRequest),
    SaveRun,
    SaveAutomation,
    DeletePending { run_id: String },
    Finish(AutomationRunRecord),
    Fail(Failure),
}

/// A run that is asked for by hand.
#[derive(Debug)]
pub struct ManualRun {
    pub automation: AutomationRecord,
    pub invocation_id: String,
    pub now: Timestamp,
    pub stage: ManualStage,
}

/// What [`ManualRun::step`] does.
pub open spec fn manual_step(
    m: ManualRun,
    event: ManualEvent,
    next: ManualRun,
    action: ManualAction,
) -> bool {
    &&& next.invocation_id == m.invocation_id && next.now == m.now
    &&& event is RunSaved || event is PendingLoaded || next.automation == m.automation
    &&& match event {
        ManualEvent::Begun => match uuid_of(m.invocation_id@) {
            None => next.stage is Done && (action matches ManualAction::Fail(e) && e@
                == invalid_invocation(m.invocation_id@)),
            Some(invocation) => {
                &&& next.stage matches ManualStage::LookingUp { pending } && is_manual_record(
                    pending,
                    m.automation.id@,
                    invocation,
                    m.now,
                )
                &&& action matches ManualAction::LoadRun { run_id } && run_id@ == manual_id(
                    invocation,
                )
            },
        },
        ManualEvent::RunLoaded(found) => m.stage matches ManualStage::LookingUp { pending } && {
            &&& next.stage == match found {
                Some(run) => ManualStage::Checking { run },
                None => ManualStage::Resuming { pending },
            }
            &&& action matches ManualAction::LoadPending { run_id } && run_id@ == pending.run.id@
        },
        ManualEvent::PendingLoaded(found) => match m.stage {
            ManualStage::Checking { run } => if found is Some {
                &&& next.automation == after_manual(m.automation, run, m.now)
                &&& next.stage == (ManualStage::SavingAutomation { run })
                &&& action is SaveAutomation
            } else {
                &&& next.automation == m.automation
                &&& next.stage is Done
                &&& action == ManualAction::Finish(run)
            },
            ManualStage::Resuming { pending } => {
                &&& next.automation == m.automation
                &&& match found {
                    None => next.stage == (ManualStage::SavingPending { pending })
                        && action is SavePending,
                    Some(known) => {
                        &&& next.stage == (ManualStage::Enqueueing { pending: known })
                        &&& action matches ManualAction::Enqueue(req) && is_task_request(
                            req,
                            m.automation,
                        )
                    },
                }
            },
            _ => false,
        },
        ManualEvent::PendingSaved => m.stage matches ManualStage::SavingPending { pending } && {
            &&& next.stage == (ManualStage::Enqueueing { pending })
            &&& action matches ManualAction::Enqueue(req) && is_task_request(req, m.automation)
        },
        ManualEvent::Enqueued { outcome, at } => m.stage matches ManualStage::Enqueueing { pending }
            && {
            &&& next.stage matches ManualStage::SavingRun { run } && is_enqueued(
                pending.run,
                outcome,
                at,
                run,
            )
            &&& action is SaveRun
        },
        ManualEvent::RunSaved { at } => m.stage matches ManualStage::SavingRun { run } && {
            &&& next.automation == after_manual(m.automation, run, at)
            &&& next.stage == (ManualStage::SavingAutomation { run })
            &&& action is SaveAutomation
        },
        ManualEvent::AutomationSaved => m.stage matches ManualStage::SavingAutomation { run } && {
            &&& next.stage == (ManualStage::Deleting { run })
            &&& action matches ManualAction::DeletePending { run_id } && run_id@ == run.id@
        },
        ManualEvent::PendingDeleted => m.stage matches ManualStage::Deleting { run } && {
            &&& next.stage is Done
            &&& action == ManualAction::Finish(run)
        },
    }
}

impl ManualRun {
    /// A run of the automation, asked for at `now` under the caller's identifier.
    pub fn new(automation: AutomationRecord, invocation_id: String, now: Timestamp) -> (r: Self)
        ensures
            r == (ManualRun { automation, invocation_id, now, stage: ManualStage::New }),
    {
        ManualRun { automation, invocation_id, now, stage: ManualStage::New }
    }

    /// Whether the run waits for an event of this sort.
    pub open spec fn expects(self, event: ManualEvent) -> bool {
        match event {
            ManualEvent::Begun => self.stage is New,
            ManualEvent::RunLoaded(_) => self.stage is LookingUp,
            ManualEvent::PendingLoaded(_) => self.stage is Checking || self.stage is Resuming,
            ManualEvent::PendingSaved => self.stage is SavingPending,
            ManualEvent::Enqueued { .. } => self.stage is Enqueueing,
            ManualEvent::RunSaved { .. } => self.stage is SavingRun,
            ManualEvent::AutomationSaved => self.stage is SavingAutomation,
            ManualEvent::PendingDeleted => self.stage is Deleting,
        }
    }

    fn begin(&mut self) -> (r: ManualAction)
        requires
            old(self).stage is New,
        ensures
            manual_step(*old(self), ManualEvent::Begun, *final(self), r),
    {
        match PendingEnqueueRecord::for_manual(
            self.automation.id.as_str(),
            self.invocation_id.as_str(),
            self.now,
        ) {
            Err(e) => {
                self.stage = ManualStage::Done;
                ManualAction::Fail(e)
            },
            Ok(pending) => {
                let run_id = copy_text(pending.run.id.as_str());
                self.stage = ManualStage::LookingUp { pending };
                ManualAction::LoadRun { run_id }
            },
        }
    }

    fn pending_loaded(&mut self, found: Option<PendingEnqueueRecord>) -> (r: ManualAction)
        requires
            old(self).stage is Checking || old(self).stage is Resuming,
        ensures
            manual_step(*old(self), ManualEvent::PendingLoaded(found), *final(self), r),
    {
        let mut stage = ManualStage::Done;
        std::mem::swap(&mut stage, &mut self.stage);
        match stage {
            ManualStage::Checking { run } => if found.is_some() {
                let now = self.now;
                settle_manual(&mut self.automation, &run, now);
                self.stage = ManualStage::SavingAutomation { run };
                ManualAction::SaveAutomation
            } else {
                ManualAction::Finish(run)
            },
            ManualStage::Resuming { pending } => match found {
                None => {
                    self.stage = ManualStage::SavingPending { pending };
                    ManualAction::SavePending
                },
                Some(known) => {
                    self.stage = ManualStage::Enqueueing { pending: known };
                    ManualAction::Enqueue(task_request_for(&self.automation))
                },
            },
            _ => ManualAction::SavePending,
        }
    }

    /// Takes what happened and says what to do next.
    pub fn step(&mut self, event: ManualEvent) -> (r: ManualAction)
        requires
            old(self).expects(event),
        ensures
            manual_step(*old(self), event, *final(self), r),
    {
        match event {
            ManualEvent::Begun => {
                return self.begin();
            },
            ManualEvent::PendingLoaded(found) => {
                return self.pending_loaded(found);
            },
            _ => {},
        }
        let mut stage = ManualStage::Done;
        std::mem::swap(&mut stage, &mut self.stage);
        match (event, stage) {
            (ManualEvent::RunLoaded(found), ManualStage::LookingUp { pending }) => {
                let run_id = copy_text(pending.run.id.as_str());
                self.stage = match found {
                    Some(run) => ManualStage::Checking { run },
                    None => ManualStage::Resuming { pending },
                };
                ManualAction::LoadPending { run_id }
            },
            (ManualEvent::PendingSaved, ManualStage::SavingPending { pending }) => {
                self.stage = ManualStage::Enqueueing { pending };
                ManualAction::Enqueue(task_request_for(&self.automation))
            },
            (ManualEvent::Enqueued { outcome, at }, ManualStage::Enqueueing { pending }) => {
                let mut run = pending.run;
                record_enqueue(&mut run, outcome, at);
                self.stage = ManualStage::SavingRun { run };
                ManualAction::SaveRun
            },
            (ManualEvent::RunSaved { at }, ManualStage::SavingRun { run }) => {
                settle_manual(&mut self.automation, &run, at);
                self.stage = ManualStage::SavingAutomation { run };
                ManualAction::SaveAutomation
            },
            (ManualEvent::AutomationSaved, ManualStage::SavingAutomation { run }) => {
                let run_id = copy_text(run.id.as_str());
                self.stage = ManualStage::Deleting { run };
                ManualAction::DeletePending { run_id }
            },
            (ManualEvent::PendingDeleted, ManualStage::Deleting { run }) => ManualAction::Finish(
                run,
            ),
            _ => ManualAction::SavePending,
        }
    }
}

} // verus!
