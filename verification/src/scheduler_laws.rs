//! What holds of every tick of the scheduler.
use vstd::prelude::*;
use vstd::string::*;

use crate::automation::planned_slot;
use crate::pending::{is_slot_record, slot_id, slot_key};
use crate::rrule::{rrule_meaning, AutomationSchedule, ScheduleError};
use crate::rrule_laws::a_rule_has_one_meaning;
use crate::schedule::{latest_due, normalized_cursor, Zone};
use crate::schedule_laws::{
    accepted_rules_are_well_formed, fast_forward_stays_between,
    minutely_fast_forward_starts_a_minute, normalized_cursor_is_stable, plausible,
};
use crate::scheduler::{
    latest_in_words, lemma_planned_slot_is_later, rule_cursor, rule_latest, tick_advances,
    tick_begins, tick_fails, tick_moves_cursor, tick_proceeds, tick_step, SlotLookup,
    SlotTick, TickAction, TickEvent, TickStage,
};
use crate::time::Timestamp;

verus! {

/// One step of a tick.
pub struct TickStep {
    pub before: SlotTick,
    pub event: TickEvent,
    pub after: SlotTick,
    pub action: TickAction,
}

impl TickStep {
    pub open spec fn is_step(self, zone: Zone) -> bool {
        &&& self.before.wf()
        &&& self.before.expects(self.event)
        &&& tick_step(zone, self.before, self.event, self.after, self.action)
    }
}

/// The steps of a tick, from its start.
pub open spec fn is_course(zone: Zone, steps: Seq<TickStep>) -> bool {
    &&& steps.len() > 0 ==> steps[0].before.stage is New
    &&& forall|i: int| 0 <= i < steps.len() ==> (#[trigger] steps[i]).is_step(zone)
    &&& forall|i: int, j: int|
        0 <= i && j == i + 1 && j < steps.len() ==> (#[trigger] steps[j]).before == (
        #[trigger] steps[i]).after
}

/// Which action leads to which stage.
proof fn lemma_stages(zone: Zone, s: TickStep)
    requires
        s.is_step(zone),
    ensures
        s.after.stage !is New,
        s.after.now == s.before.now,
        s.after.automation.id == s.before.automation.id,
        s.action is SavePending <==> s.after.stage is SavingPending,
        s.action is Enqueue <==> s.after.stage is Enqueueing,
        s.action is SaveRun <==> s.after.stage is SavingRun,
        s.action is DeletePending <==> s.after.stage is Deleting,
        s.after.stage is SavingAdvanced ==> s.action is SaveAutomation && s.event is RunSaved,
        s.after.stage is LookingUp ==> s.action is LoadRun,
        s.after.stage is SavingCursor ==> s.action is SaveAutomation,
        s.action is SavePending ==> s.event is RunLoaded,
        s.action is Enqueue ==> s.event is PendingSaved,
        s.action is SaveRun ==> s.event is Enqueued,
        s.action is DeletePending ==> s.event is AutomationSaved && s.before.stage
            is SavingAdvanced,
{
    let t = s.before;
    match s.event {
        TickEvent::Begun => {
            assert(tick_begins(zone, t, s.after, s.action));
        },
        _ => {},
    }
}

/// A task is queued only in the step after its journal record has been stored, and
/// that record is the one of the slot: it holds the key that the task goes under.
pub proof fn tasks_follow_their_journal(zone: Zone, steps: Seq<TickStep>, i: int)
    requires
        is_course(zone, steps),
        0 <= i < steps.len(),
        steps[i].action is Enqueue,
    ensures
        i > 0,
        steps[i - 1].action is SavePending,
        steps[i].before.stage matches TickStage::SavingPending { due_at, pending } && {
            &&& steps[i].after.stage == (TickStage::Enqueueing { due_at, pending })
            &&& is_slot_record(
                pending,
                steps[i].before.automation.id@,
                due_at,
                steps[i].before.now,
            )
            &&& pending.slot_key@ == slot_key(steps[i].before.automation.id@, due_at)
        },
{
    lemma_stages(zone, steps[i]);
    assert(steps[i].is_step(zone));
    assert(steps[i].before.stage is SavingPending);
    assert(i > 0);
    assert(steps[i].before == steps[i - 1].after);
    assert(steps[i - 1].is_step(zone));
    lemma_stages(zone, steps[i - 1]);
}

/// A journal record is deleted only after it was stored, its task was queued, its run
/// was stored, and the automation was stored with its cursor past the slot, in this
/// order.
pub proof fn journals_go_last(zone: Zone, steps: Seq<TickStep>, i: int)
    requires
        plausible(zone),
        is_course(zone, steps),
        0 <= i < steps.len(),
        steps[i].action is DeletePending,
    ensures
        i >= 4,
        steps[i - 1].action is SaveAutomation,
        steps[i - 2].action is SaveRun,
        steps[i - 3].action is Enqueue,
        steps[i - 4].action is SavePending,
        steps[i - 2].after.stage matches TickStage::SavingRun { due_at, .. } && (
        steps[i].after.automation.next_run_at matches Some(t) && due_at.before(t)),
{
    lemma_stages(zone, steps[i]);
    assert(steps[i].is_step(zone));
    assert(i > 0 && steps[i].before == steps[i - 1].after);
    let saved = steps[i - 1];
    assert(saved.is_step(zone));
    lemma_stages(zone, saved);
    assert(saved.before.stage is SavingRun);
    assert(i > 1 && saved.before == steps[i - 2].after);
    assert(steps[i - 2].is_step(zone));
    lemma_stages(zone, steps[i - 2]);
    assert(steps[i - 2].before.stage is Enqueueing);
    assert(i > 2 && steps[i - 2].before == steps[i - 3].after);
    assert(steps[i - 3].is_step(zone));
    lemma_stages(zone, steps[i - 3]);
    tasks_follow_their_journal(zone, steps, i - 3);
    let due_at = saved.before.stage->SavingRun_due_at;
    let pending = saved.before.stage->SavingRun_pending;
    handled_slots_are_passed(
        zone,
        saved.before,
        due_at,
        TickStage::SavingAdvanced { pending },
        saved.after,
        saved.action,
    );
}

/// The automation that is stored when a slot has been handled has its cursor past the
/// slot.
pub proof fn handled_slots_are_passed(
    zone: Zone,
    t: SlotTick,
    due_at: Timestamp,
    stage: TickStage,
    next: SlotTick,
    action: TickAction,
)
    requires
        plausible(zone),
        due_at.wf(),
        tick_advances(zone, t, due_at, stage, next, action),
        action is SaveAutomation,
    ensures
        next.automation.next_run_at matches Some(cursor) && due_at.before(cursor) && cursor.wf(),
{
    let slot = choose|slot: Result<Timestamp, Seq<char>>| #[trigger]
        planned_slot(zone, t.automation.rrule@, due_at, slot) && match slot {
            Err(words) => tick_fails(t, words, next, action),
            Ok(at) => tick_moves_cursor(t, at, next, action) && next.stage == stage,
        };
    lemma_planned_slot_is_later(zone, t.automation.rrule@, due_at, slot->Ok_0);
}

/// A cursor that a rule normalised to is one that it keeps.
proof fn lemma_cursor_is_kept(
    rrule: Seq<char>,
    cursor: Timestamp,
    first: Timestamp,
    schedule: AutomationSchedule,
)
    requires
        cursor.wf(),
        rule_cursor(rrule, cursor, Ok(first)),
        rrule_meaning(rrule, Ok(schedule)),
    ensures
        first.wf(),
        normalized_cursor(schedule, first) == Some(first),
{
    let parsed = choose|parsed: Result<AutomationSchedule, ScheduleError>| #[trigger]
        rrule_meaning(rrule, parsed) && match parsed {
            Err(e) => false,
            Ok(other) => normalized_cursor(other, cursor) == Some(first),
        };
    normalized_cursor_is_stable(parsed->Ok_0, cursor, first);
}

/// The slot that a tick looks up is due.
proof fn lemma_looked_up_slot_is_due(
    zone: Zone,
    t: SlotTick,
    cursor: Timestamp,
    first: Timestamp,
    next: SlotTick,
    action: TickAction,
)
    requires
        plausible(zone),
        t.now.wf(),
        cursor.wf(),
        rule_cursor(t.automation.rrule@, cursor, Ok(first)),
        tick_proceeds(zone, t, first, next, action),
        next.stage is LookingUp,
    ensures
        cursor.at_or_before(next.stage->LookingUp_due_at),
        next.stage->LookingUp_due_at.at_or_before(t.now),
{
    let rrule = t.automation.rrule@;
    let due = choose|due: Result<Timestamp, Seq<char>>| #[trigger]
        rule_latest(zone, rrule, first, t.now, due) && match due {
            Err(words) => tick_fails(t, words, next, action),
            Ok(at) => {
                &&& next.automation == t.automation && next.now == t.now
                &&& next.stage == (TickStage::LookingUp { due_at: at })
                &&& action matches TickAction::LoadRun { run_id } && run_id@ == slot_id(at)
            },
        };
    let at = due->Ok_0;
    let parsed = choose|parsed: Result<AutomationSchedule, ScheduleError>| #[trigger]
        rrule_meaning(rrule, parsed) && match parsed {
            Err(e) => false,
            Ok(schedule) => latest_in_words(zone, schedule, first, t.now, Ok(at)),
        };
    let schedule = parsed->Ok_0;
    accepted_rules_are_well_formed(rrule, schedule);
    lemma_cursor_is_kept(rrule, cursor, first, schedule);
    let slot = choose|slot: Result<Timestamp, ScheduleError>| #[trigger]
        latest_due(zone, schedule, first, t.now, slot) && match slot {
            Err(e) => false,
            Ok(s) => s == at,
        };
    fast_forward_stays_between(zone, schedule, first, t.now, first, at);
    let own = choose|own: Result<AutomationSchedule, ScheduleError>| #[trigger]
        rrule_meaning(rrule, own) && match own {
            Err(e) => false,
            Ok(other) => normalized_cursor(other, cursor) == Some(first),
        };
    normalized_cursor_is_stable(own->Ok_0, cursor, first);
}

/// A task is queued only for a slot that is due: it lies not before the automation's
/// cursor, nor after the time of the tick.
pub proof fn only_due_slots_are_queued(zone: Zone, steps: Seq<TickStep>, i: int)
    requires
        plausible(zone),
        is_course(zone, steps),
        0 <= i < steps.len(),
        steps[i].action is Enqueue,
    ensures
        steps[i].after.stage matches TickStage::Enqueueing { due_at, .. } && {
            &&& due_at.at_or_before(steps[i].after.now)
            &&& steps[0].before.automation.next_run_at matches Some(cursor)
            &&& cursor.at_or_before(due_at)
        },
{
    tasks_follow_their_journal(zone, steps, i);
    let noted = steps[i - 1];
    assert(steps[i].is_step(zone) && steps[i].before == noted.after);
    assert(noted.is_step(zone));
    lemma_stages(zone, noted);
    assert(noted.before.stage is LookingUp);
    assert(i > 1 && noted.before == steps[i - 2].after);
    let looked = steps[i - 2];
    assert(looked.is_step(zone));
    lemma_stages(zone, looked);
    let t = looked.before;
    if looked.event is Begun {
        assert(i - 2 == 0) by {
            if i - 2 > 0 {
                assert(steps[i - 2].before == steps[i - 3].after);
                assert(steps[i - 3].is_step(zone));
                lemma_stages(zone, steps[i - 3]);
            }
        }
        let cursor = t.automation.next_run_at->Some_0;
        let first = choose|first: Result<Timestamp, Seq<char>>| #[trigger]
            rule_cursor(t.automation.rrule@, cursor, first) && match first {
                Err(words) => tick_fails(t, words, looked.after, looked.action),
                Ok(at) => if at == cursor {
                    tick_proceeds(zone, t, at, looked.after, looked.action)
                } else {
                    tick_moves_cursor(t, at, looked.after, looked.action)
                        && looked.after.stage is SavingCursor
                },
            };
        lemma_looked_up_slot_is_due(zone, t, cursor, cursor, looked.after, looked.action);
    } else {
        assert(looked.before.stage is SavingCursor);
        assert(i > 2 && looked.before == steps[i - 3].after);
        let begun = steps[i - 3];
        assert(begun.is_step(zone));
        lemma_stages(zone, begun);
        assert(begun.event is Begun);
        assert(i - 3 == 0) by {
            if i - 3 > 0 {
                assert(steps[i - 3].before == steps[i - 4].after);
                assert(steps[i - 4].is_step(zone));
                lemma_stages(zone, steps[i - 4]);
            }
        }
        let b = begun.before;
        let cursor = b.automation.next_run_at->Some_0;
        let first = choose|first: Result<Timestamp, Seq<char>>| #[trigger]
            rule_cursor(b.automation.rrule@, cursor, first) && match first {
                Err(words) => tick_fails(b, words, begun.after, begun.action),
                Ok(at) => if at == cursor {
                    tick_proceeds(zone, b, at, begun.after, begun.action)
                } else {
                    tick_moves_cursor(b, at, begun.after, begun.action)
                        && begun.after.stage is SavingCursor
                },
            };
        lemma_looked_up_slot_is_due(
            zone,
            t,
            cursor,
            first->Ok_0,
            looked.after,
            looked.action,
        );
    }
}

/// The slot of a minutely rule that is queued starts a minute.
pub proof fn minutely_slots_start_a_minute(
    zone: Zone,
    steps: Seq<TickStep>,
    i: int,
    schedule: AutomationSchedule,
)
    requires
        is_course(zone, steps),
        0 <= i < steps.len(),
        steps[i].action is Enqueue,
        rrule_meaning(steps[i].before.automation.rrule@, Ok(schedule)),
        schedule is Minutely,
    ensures
        steps[i].after.stage matches TickStage::Enqueueing { due_at, pending } && {
            &&& due_at.secs as int % 60 == 0 && due_at.nanos == 0
            &&& pending.run.scheduled_for == due_at
        },
{
    tasks_follow_their_journal(zone, steps, i);
    let noted = steps[i - 1];
    assert(steps[i].is_step(zone) && steps[i].before == noted.after);
    assert(noted.is_step(zone));
    lemma_stages(zone, noted);
    assert(noted.before.stage is LookingUp);
    assert(i > 1 && noted.before == steps[i - 2].after);
    let looked = steps[i - 2];
    assert(looked.is_step(zone));
    lemma_stages(zone, looked);
    let t = looked.before;
    let cursor = t.automation.next_run_at->Some_0;
    assert(tick_proceeds(zone, t, cursor, looked.after, looked.action));
    let rrule = t.automation.rrule@;
    let due = choose|due: Result<Timestamp, Seq<char>>| #[trigger]
        rule_latest(zone, rrule, cursor, t.now, due) && match due {
            Err(words) => tick_fails(t, words, looked.after, looked.action),
            Ok(at) => {
                &&& looked.after.automation == t.automation && looked.after.now == t.now
                &&& looked.after.stage == (TickStage::LookingUp { due_at: at })
                &&& looked.action matches TickAction::LoadRun { run_id } && run_id@ == slot_id(at)
            },
        };
    let at = due->Ok_0;
    let parsed = choose|parsed: Result<AutomationSchedule, ScheduleError>| #[trigger]
        rrule_meaning(rrule, parsed) && match parsed {
            Err(e) => false,
            Ok(other) => latest_in_words(zone, other, cursor, t.now, Ok(at)),
        };
    a_rule_has_one_meaning(rrule, parsed, Ok(schedule));
    accepted_rules_are_well_formed(rrule, parsed->Ok_0);
    let slot = choose|slot: Result<Timestamp, ScheduleError>| #[trigger]
        latest_due(zone, parsed->Ok_0, cursor, t.now, slot) && match slot {
            Err(e) => false,
            Ok(s) => s == at,
        };
    minutely_fast_forward_starts_a_minute(zone, parsed->Ok_0, cursor, t.now, at);
}

/// A slot whose run is already stored, or whose record cannot be trusted, is not
/// queued again; in the latter case the automation stays where it is.
pub proof fn known_slots_are_not_queued_again(zone: Zone, s: TickStep)
    requires
        s.is_step(zone),
        s.event matches TickEvent::RunLoaded(found) && found !is Missing,
    ensures
        s.action is SaveAutomation || s.action is Finish || s.action is Fail,
        s.after.stage is SavingLast || s.after.stage is Done,
        s.event matches TickEvent::RunLoaded(SlotLookup::Invalid) ==> s.after.automation
            == s.before.automation,
{
}

/// A paused automation is left as it is.
pub proof fn paused_automations_stay_idle(zone: Zone, steps: Seq<TickStep>)
    requires
        is_course(zone, steps),
        steps.len() > 0,
        steps[0].before.automation.status is Paused,
    ensures
        steps.len() == 1,
        steps[0].action is Finish,
        steps[0].after.automation == steps[0].before.automation,
{
    assert(steps[0].is_step(zone));
    if steps.len() > 1 {
        assert(steps[1].is_step(zone));
        assert(steps[1].before == steps[0].after);
    }
}

} // verus!
