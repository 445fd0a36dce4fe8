//! What holds of every run that goes through the journal: of those that an earlier
//! process left behind, and of those that are asked for by hand.
use vstd::prelude::*;
use vstd::string::*;

use crate::automation::AutomationRecord;
use crate::enqueue::after_manual;
use crate::failure::Failure;
use crate::ids::uuid_of;
use crate::manual_run::{manual_step, ManualAction, ManualEvent, ManualRun, ManualStage};
use crate::pending::{manual_id, manual_key, slot_key};
use crate::resumption::{
    due_in_words, is_recovery, moves_on, resume_step, Recovery, ResumeAction, ResumeEvent,
    Resumption,
};
use crate::rrule::{rrule_meaning, AutomationSchedule, ScheduleError};
use crate::schedule::{next_due, Zone};
use crate::schedule_laws::{
    accepted_rules_are_well_formed, next_due_is_ahead, plausible, steady, whole_minutes,
};
use crate::time::Timestamp;

verus! {

// Resumptions ----------------------------------------------------------------
/// One step of a resumption.
pub struct ResumeMove {
    pub before: Resumption,
    pub event: ResumeEvent,
    pub after: Resumption,
    pub action: ResumeAction,
}

impl ResumeMove {
    pub open spec fn is_step(self, zone: Zone) -> bool {
        &&& self.before.expects(self.event)
        &&& resume_step(zone, self.before, self.event, self.after, self.action)
    }
}

/// The steps of a resumption, from its start.
pub open spec fn is_resumption(zone: Zone, steps: Seq<ResumeMove>) -> bool {
    &&& steps.len() > 0 ==> steps[0].before.stage is New
    &&& forall|i: int| 0 <= i < steps.len() ==> (#[trigger] steps[i]).is_step(zone)
    &&& forall|i: int, j: int|
        0 <= i && j == i + 1 && j < steps.len() ==> (#[trigger] steps[j]).before == (
        #[trigger] steps[i]).after
}

proof fn lemma_resume_stages(zone: Zone, s: ResumeMove)
    requires
        s.is_step(zone),
    ensures
        s.after.stage !is New,
        s.action is Enqueue <==> s.after.stage is Enqueueing,
        s.action is SaveRun <==> s.after.stage is SavingRun,
        s.action is SaveAutomation <==> s.after.stage is SavingAutomation,
        s.action is DeletePending <==> s.after.stage is Deleting,
        s.action is Enqueue ==> s.before.stage is New,
        s.action is SaveRun ==> s.before.stage is Enqueueing,
        s.action is SaveAutomation ==> s.before.stage is SavingRun,
        s.action is DeletePending ==> s.before.stage is SavingRun || s.before.stage
            is SavingAutomation,
{
}

/// A task that is queued again goes under the key that the journal record holds: no
/// step changes the record's key, its kind, or which run of which automation it is
/// about.
pub proof fn resumed_runs_keep_their_key(zone: Zone, s: ResumeMove)
    requires
        s.is_step(zone),
    ensures
        s.after.pending.slot_key == s.before.pending.slot_key,
        s.after.pending.kind == s.before.pending.kind,
        s.after.pending.run.id == s.before.pending.run.id,
        s.after.pending.run.automation_id == s.before.pending.run.automation_id,
        s.after.pending.run.scheduled_for == s.before.pending.run.scheduled_for,
{
}

/// A journal record that was left behind is deleted only after its task was queued
/// and its run stored; and, where the automation changes, only after that was stored
/// too.
pub proof fn resumed_journals_go_last(zone: Zone, steps: Seq<ResumeMove>, i: int)
    requires
        is_resumption(zone, steps),
        0 <= i < steps.len(),
        steps[i].action is DeletePending,
    ensures
        ({
            ||| i == 2 && steps[1].action is SaveRun && steps[0].action is Enqueue
                && steps[2].after.automation == steps[0].before.automation
            ||| i == 3 && steps[2].action is SaveAutomation && steps[1].action is SaveRun
                && steps[0].action is Enqueue
        }),
{
    lemma_resume_stages(zone, steps[i]);
    assert(steps[i].is_step(zone));
    assert(i > 0 && steps[i].before == steps[i - 1].after);
    assert(steps[i - 1].is_step(zone));
    lemma_resume_stages(zone, steps[i - 1]);
    assert(i > 1 && steps[i - 1].before == steps[i - 2].after);
    assert(steps[i - 2].is_step(zone));
    lemma_resume_stages(zone, steps[i - 2]);
    if i > 2 {
        assert(steps[i - 2].before == steps[i - 3].after);
        assert(steps[i - 3].is_step(zone));
        lemma_resume_stages(zone, steps[i - 3]);
        if i > 3 {
            assert(steps[i - 3].before == steps[i - 4].after);
            assert(steps[i - 4].is_step(zone));
            lemma_resume_stages(zone, steps[i - 4]);
        }
    }
}

/// An automation whose slot was recovered has its next run ahead: the tick that
/// recovered it finds nothing more to do for it.
pub proof fn recovered_automations_run_later(
    zone: Zone,
    s: Resumption,
    new: AutomationRecord,
    r: Result<Recovery, Failure>,
)
    requires
        plausible(zone),
        steady(zone),
        whole_minutes(zone),
        s.wf(),
        s.pending.run.scheduled_for.secs as int % 60 == 0,
        s.pending.run.scheduled_for.nanos == 0,
        is_recovery(zone, s.automation, s.pending.kind, s.pending.run, s.now, new, r),
        r == Ok::<_, Failure>(Recovery::Recovered),
    ensures
        new.next_run_at matches Some(t) && s.now.before(t),
        new.status is Active,
{
    let rrule = s.automation.rrule@;
    let slot = s.pending.run.scheduled_for;
    let due = choose|due: Result<Timestamp, Seq<char>>| #[trigger]
        moves_on(zone, rrule, slot, s.now, due) && match due {
            Err(words) => (r matches Err(e) && e@ == words) && new == s.automation,
            Ok(t) => r == Ok::<_, Failure>(Recovery::Recovered) && new == (AutomationRecord {
                next_run_at: Some(t),
                ..after_manual(s.automation, s.pending.run, s.now)
            }),
        };
    let t = due->Ok_0;
    let parsed = choose|parsed: Result<AutomationSchedule, ScheduleError>| #[trigger]
        rrule_meaning(rrule, parsed) && match parsed {
            Err(e) => false,
            Ok(schedule) => due_in_words(zone, schedule, slot, s.now, Ok(t)),
        };
    let schedule = parsed->Ok_0;
    accepted_rules_are_well_formed(rrule, schedule);
    let found = choose|found: Result<Timestamp, ScheduleError>| #[trigger]
        next_due(zone, schedule, slot, s.now, found) && match found {
            Err(e) => false,
            Ok(at) => at == t,
        };
    next_due_is_ahead(zone, schedule, slot, s.now, t);
}

/// A paused automation is not changed by the recovery of a slot of its schedule.
pub proof fn paused_automations_are_not_moved(zone: Zone, s: ResumeMove)
    requires
        s.is_step(zone),
        s.before.automation.status is Paused,
        s.before.pending.kind is Scheduled,
    ensures
        s.after.automation == s.before.automation,
        s.after.recovered == s.before.recovered,
        s.action !is SaveAutomation || s.before.stage is SavingAutomation,
{
}

// Runs by hand ---------------------------------------------------------------
/// One step of a run by hand.
pub struct ManualMove {
    pub before: ManualRun,
    pub event: ManualEvent,
    pub after: ManualRun,
    pub action: ManualAction,
}

impl ManualMove {
    pub open spec fn is_step(self) -> bool {
        &&& self.before.expects(self.event)
        &&& manual_step(self.before, self.event, self.after, self.action)
    }
}

/// The steps of a run by hand, from its start.
pub open spec fn is_manual_course(steps: Seq<ManualMove>) -> bool {
    &&& steps.len() > 0 ==> steps[0].before.stage is New
    &&& forall|i: int| 0 <= i < steps.len() ==> (#[trigger] steps[i]).is_step()
    &&& forall|i: int, j: int|
        0 <= i && j == i + 1 && j < steps.len() ==> (#[trigger] steps[j]).before == (
        #[trigger] steps[i]).after
}

proof fn lemma_manual_stages(s: ManualMove)
    requires
        s.is_step(),
    ensures
        s.after.stage !is New,
        s.after.automation.id == s.before.automation.id,
        s.after.invocation_id == s.before.invocation_id,
        s.after.stage is LookingUp ==> s.before.stage is New,
        s.after.stage is Checking || s.after.stage is Resuming ==> s.before.stage is LookingUp,
        s.action is SavePending <==> s.after.stage is SavingPending,
        s.action is SavePending ==> s.before.stage is Resuming,
        s.action is SaveRun <==> s.after.stage is SavingRun,
        s.action is SaveAutomation <==> s.after.stage is SavingAutomation,
        s.action is SaveAutomation ==> s.before.stage is SavingRun || s.before.stage is Checking,
        s.action is DeletePending ==> s.before.stage is SavingAutomation,
{
}

/// The step before another one that has begun.
proof fn lemma_manual_previous(steps: Seq<ManualMove>, i: int)
    requires
        is_manual_course(steps),
        0 <= i < steps.len(),
        steps[i].before.stage !is New,
    ensures
        i > 0,
        steps[i - 1].is_step(),
        steps[i].before == steps[i - 1].after,
{
    assert(i > 0);
    assert(steps[i].before == steps[i - 1].after);
}

/// A run that is stored is handed back and not queued again.
pub proof fn stored_runs_are_handed_back(steps: Seq<ManualMove>, i: int)
    requires
        is_manual_course(steps),
        1 < i < steps.len(),
        steps[1].event matches ManualEvent::RunLoaded(found) && found is Some,
    ensures
        steps[i].action !is Enqueue && steps[i].action !is SaveRun && steps[i].action
            !is SavePending,
        steps[i].action is Finish ==> steps[i].action == ManualAction::Finish(
            steps[1].event->RunLoaded_0->Some_0,
        ),
{
    let run = steps[1].event->RunLoaded_0->Some_0;
    lemma_handing_back(steps, run, i);
    assert(steps[i].is_step());
}

proof fn lemma_handing_back(
    steps: Seq<ManualMove>,
    run: crate::automation::AutomationRunRecord,
    i: int,
)
    requires
        is_manual_course(steps),
        1 < i < steps.len(),
        steps[1].event == ManualEvent::RunLoaded(Some(run)),
    ensures
        steps[i].before.stage == (ManualStage::Checking { run }) || steps[i].before.stage == (
        ManualStage::SavingAutomation { run }) || steps[i].before.stage == (
        ManualStage::Deleting { run }) || steps[i].before.stage is Done,
    decreases i,
{
    assert(steps[i].before == steps[i - 1].after);
    assert(steps[i - 1].is_step());
    if i > 2 {
        lemma_handing_back(steps, run, i - 1);
    }
}

/// A task is queued only after its journal record was stored, or was found there: in
/// both cases the record, with the key that the task goes under, outlives a crash.
pub proof fn manual_tasks_follow_their_journal(steps: Seq<ManualMove>, i: int)
    requires
        is_manual_course(steps),
        0 <= i < steps.len(),
        steps[i].action is Enqueue,
    ensures
        steps[i].after.stage matches ManualStage::Enqueueing { pending } && match steps[i].event {
            ManualEvent::PendingSaved => {
                &&& i == 3
                &&& steps[2].action is SavePending
                &&& uuid_of(steps[0].before.invocation_id@) matches Some(invocation)
                &&& pending.slot_key@ == manual_key(steps[0].before.automation.id@, invocation)
                &&& pending.run.id@ == manual_id(invocation)
            },
            ManualEvent::PendingLoaded(found) => found == Some(pending),
            _ => false,
        },
{
    assert(steps[i].is_step());
    if steps[i].event is PendingSaved {
        lemma_manual_previous(steps, i);
        lemma_manual_stages(steps[i - 1]);
        lemma_manual_previous(steps, i - 1);
        lemma_manual_stages(steps[i - 2]);
        lemma_manual_previous(steps, i - 2);
        lemma_manual_stages(steps[i - 3]);
        if i > 3 {
            assert(steps[i - 4].is_step());
            lemma_manual_stages(steps[i - 4]);
            assert(steps[i - 3].before == steps[i - 4].after);
        }
    }
}

/// The journal record of a run by hand is deleted only in the step after the
/// automation was stored; and the automation is stored only once the run is.
pub proof fn manual_journals_go_last(steps: Seq<ManualMove>, i: int)
    requires
        is_manual_course(steps),
        0 <= i < steps.len(),
        steps[i].action is DeletePending,
    ensures
        i > 1,
        steps[i - 1].action is SaveAutomation,
        steps[i - 1].event is RunSaved ==> steps[i - 2].action is SaveRun,
        steps[i - 1].event is RunSaved || (steps[1].event matches ManualEvent::RunLoaded(found)
            && found is Some),
{
    assert(steps[i].is_step());
    lemma_manual_stages(steps[i]);
    lemma_manual_previous(steps, i);
    lemma_manual_stages(steps[i - 1]);
    lemma_manual_previous(steps, i - 1);
    lemma_manual_stages(steps[i - 2]);
    if steps[i - 1].before.stage is Checking {
        lemma_manual_previous(steps, i - 2);
        lemma_manual_stages(steps[i - 3]);
        if i > 3 {
            assert(steps[i - 4].is_step());
            lemma_manual_stages(steps[i - 4]);
            assert(steps[i - 3].before == steps[i - 4].after);
        }
    }
}

} // verus!
