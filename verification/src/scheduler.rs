//! The slots of an automation's schedule: from a slot that is due to a task in the
//! queue.
//!
//! The journal record of a run is stored before its task is queued, and deleted only
//! after the run and the automation have been stored. Whatever is interrupted in
//! between is taken up again under the same key.
use vstd::prelude::*;
use vstd::string::*;

use crate::automation::{
    in_words, lemma_slot_in_words_within, plan_slot_with, planned_slot, slot_in_words,
    AutomationRecord, AutomationStatus,
};
use crate::automation_laws::lemma_slot_in_words_later;
use crate::enqueue::{is_enqueued, is_task_request, record_enqueue, task_request_for, QueuedTask};
use crate::failure::Failure;
use crate::pending::{is_slot_record, slot_id, slot_run_id, PendingEnqueueRecord};
use crate::rrule::{rrule_meaning, AutomationSchedule, ScheduleError};
use crate::schedule::{
    answers_plausibly, any_zone, latest_due, lemma_latest_due_within,
    normalized_cursor, zone_of, zone_within, Zone,
};
use crate::schedule_laws::{accepted_rules_are_well_formed, plausible};
use crate::task::NewTaskRequest;
use crate::time::{local_offset, local_time, LocalTime, Timestamp};

verus! {

/// How often the slots are looked at.
#[derive(Debug, Clone)]
pub struct AutomationSchedulerConfig {
    pub tick_interval_secs: u64,
}

/// The shortest time between two ticks, in seconds.
pub const MIN_TICK_INTERVAL_SECS: u64 = 5;

impl Default for AutomationSchedulerConfig {
    fn default() -> (r: Self)
        ensures
            r.tick_interval_secs == 15,
    {
        AutomationSchedulerConfig { tick_interval_secs: 15 }
    }
}

impl AutomationSchedulerConfig {
    /// The time between two ticks, in seconds.
    pub fn interval_secs(&self) -> (r: u64)
        ensures
            r == if self.tick_interval_secs < MIN_TICK_INTERVAL_SECS {
                MIN_TICK_INTERVAL_SECS
            } else {
                self.tick_interval_secs
            },
    {
        if self.tick_interval_secs < MIN_TICK_INTERVAL_SECS {
            MIN_TICK_INTERVAL_SECS
        } else {
            self.tick_interval_secs
        }
    }
}

/// Where the handling of an automation's slot stands: what it waits for.
#[derive(Debug)]
pub enum TickStage {
    New,
    /// The automation is being stored; nothing follows.
    SavingLast,
    /// The automation's normalised cursor is being stored.
    SavingCursor,
    /// The run of the slot is being looked up.
    LookingUp { due_at: Timestamp },
    /// The journal record is being stored.
    SavingPending { due_at: Timestamp, pending: PendingEnqueueRecord },
    /// The task is being queued.
    Enqueueing { due_at: Timestamp, pending: PendingEnqueueRecord },
    /// The run is being stored.
    SavingRun { due_at: Timestamp, pending: PendingEnqueueRecord },
    /// The automation with its cursor past the slot is being stored.
    SavingAdvanced { pending: PendingEnqueueRecord },
    /// The journal record is being deleted.
    Deleting { pending: PendingEnqueueRecord },
    Done,
}

/// What was found of the run of a slot.
#[derive(Debug, Clone, Copy, PartialEq, Eq, Structural)]
pub enum SlotLookup {
    Missing,
    /// A run that was scheduled for this time.
    Found(Timestamp),
    /// A record that cannot be read or is not valid.
    Invalid,
}

/// What happened since the last step.
#[derive(Debug)]
pub enum TickEvent {
    Begun,
    AutomationSaved,
    RunLoaded(SlotLookup),
    PendingSaved,
    /// The task was queued, or could not be.
    Enqueued { outcome: Result<QueuedTask, String>, at: Timestamp },
    RunSaved,
    PendingDeleted,
}

/// What to do next. The records to be stored stand in the [`SlotTick`].
#[derive(Debug)]
pub enum TickAction {
    SaveAutomation,
    LoadRun { run_id: String },
    SavePending,
    /// Queue a task under the key of the journal record.
    Enqueue(NewTaskRequest),
    SaveRun,
    DeletePending,
    Finish,
    Fail(Failure),
}

/// An automation whose slot is being handled.
#[derive(Debug)]
pub struct SlotTick {
    pub automation: AutomationRecord,
    pub now: Timestamp,
    pub stage: TickStage,
}

/// The slot that an automation fast-forwards to, in words where there is none.
pub open spec fn latest_in_words(
    zone: Zone,
    schedule: AutomationSchedule,
    first: Timestamp,
    now: Timestamp,
    out: Result<Timestamp, Seq<char>>,
) -> bool {
    exists|slot: Result<Timestamp, ScheduleError>| #[trigger]
        latest_due(zone, schedule, first, now, slot) && match slot {
            Err(e) => out == Err::<Timestamp, _>(e.text()),
            Ok(t) => out == Ok::<_, Seq<char>>(t),
        }
}

/// The slot that a rule fast-forwards to.
pub open spec fn rule_latest(
    zone: Zone,
    rrule: Seq<char>,
    first: Timestamp,
    now: Timestamp,
    out: Result<Timestamp, Seq<char>>,
) -> bool {
    exists|parsed: Result<AutomationSchedule, ScheduleError>| #[trigger]
        rrule_meaning(rrule, parsed) && match parsed {
            Err(e) => out == Err::<Timestamp, _>(e.text()),
            Ok(schedule) => latest_in_words(zone, schedule, first, now, out),
        }
}

/// The cursor that a rule normalises `cursor` to.
pub open spec fn rule_cursor(
    rrule: Seq<char>,
    cursor: Timestamp,
    out: Result<Timestamp, Seq<char>>,
) -> bool {
    exists|parsed: Result<AutomationSchedule, ScheduleError>| #[trigger]
        rrule_meaning(rrule, parsed) && match parsed {
            Err(e) => out == Err::<Timestamp, _>(e.text()),
            Ok(schedule) => out == match normalized_cursor(schedule, cursor) {
                Some(t) => Ok::<Timestamp, Seq<char>>(t),
                None => Err(ScheduleError::OutOfRange.text()),
            },
        }
}

/// The tick fails.
pub open spec fn tick_fails(t: SlotTick, words: Seq<char>, next: SlotTick, action: TickAction) -> bool {
    &&& next.automation == t.automation && next.now == t.now
    &&& next.stage is Done
    &&& action matches TickAction::Fail(e) && e@ == words
}

/// The tick is over.
pub open spec fn tick_ends(t: SlotTick, next: SlotTick, action: TickAction) -> bool {
    next.automation == t.automation && next.now == t.now && next.stage is Done && action is Finish
}

/// The automation gets a new cursor, and is stored.
pub open spec fn tick_moves_cursor(
    t: SlotTick,
    cursor: Timestamp,
    next: SlotTick,
    action: TickAction,
) -> bool {
    &&& next.now == t.now
    &&& next.automation == (AutomationRecord {
        next_run_at: Some(cursor),
        updated_at: t.now,
        ..t.automation
    })
    &&& action is SaveAutomation
}

/// The tick looks whether the slot at `first` is due, and which one is.
pub open spec fn tick_proceeds(
    zone: Zone,
    t: SlotTick,
    first: Timestamp,
    next: SlotTick,
    action: TickAction,
) -> bool {
    if t.now.before(first) {
        tick_ends(t, next, action)
    } else {
        exists|due: Result<Timestamp, Seq<char>>| #[trigger]
            rule_latest(zone, t.automation.rrule@, first, t.now, due) && match due {
                Err(words) => tick_fails(t, words, next, action),
                Ok(at) => {
                    &&& next.automation == t.automation && next.now == t.now
                    &&& next.stage == (TickStage::LookingUp { due_at: at })
                    &&& action matches TickAction::LoadRun { run_id } && run_id@ == slot_id(at)
                },
            }
    }
}

/// The tick moves the cursor past the slot at `due_at`.
pub open spec fn tick_advances(
    zone: Zone,
    t: SlotTick,
    due_at: Timestamp,
    stage: TickStage,
    next: SlotTick,
    action: TickAction,
) -> bool {
    exists|slot: Result<Timestamp, Seq<char>>| #[trigger]
        planned_slot(zone, t.automation.rrule@, due_at, slot) && match slot {
            Err(words) => tick_fails(t, words, next, action),
            Ok(at) => tick_moves_cursor(t, at, next, action) && next.stage == stage,
        }
}

/// The first step of a tick.
pub open spec fn tick_begins(
    zone: Zone,
    t: SlotTick,
    next: SlotTick,
    action: TickAction,
) -> bool {
    if t.automation.status is Paused {
        tick_ends(t, next, action)
    } else {
        match t.automation.next_run_at {
            None => tick_advances(zone, t, t.now, TickStage::SavingLast, next, action),
            Some(cursor) => exists|first: Result<Timestamp, Seq<char>>| #[trigger]
                rule_cursor(t.automation.rrule@, cursor, first) && match first {
                    Err(words) => tick_fails(t, words, next, action),
                    Ok(at) => if at == cursor {
                        tick_proceeds(zone, t, at, next, action)
                    } else {
                        tick_moves_cursor(t, at, next, action) && next.stage is SavingCursor
                    },
                },
        }
    }
}

/// What [`SlotTick::step`] does.
pub open spec fn tick_step(
    zone: Zone,
    t: SlotTick,
    event: TickEvent,
    next: SlotTick,
    action: TickAction,
) -> bool {
    match event {
        TickEvent::Begun => tick_begins(zone, t, next, action),
        TickEvent::AutomationSaved => match t.stage {
            TickStage::SavingCursor => tick_proceeds(
                zone,
                t,
                t.automation.next_run_at->Some_0,
                next,
                action,
            ),
            TickStage::SavingAdvanced { pending } => next.automation == t.automation && next.now
                == t.now && next.stage == (TickStage::Deleting { pending })
                && action is DeletePending,
            _ => tick_ends(t, next, action),
        },
        TickEvent::RunLoaded(found) => {
            let due_at = t.stage->LookingUp_due_at;
            match found {
                SlotLookup::Invalid => tick_ends(t, next, action),
                SlotLookup::Found(at) => if at == due_at {
                    tick_advances(zone, t, due_at, TickStage::SavingLast, next, action)
                } else {
                    tick_ends(t, next, action)
                },
                SlotLookup::Missing => {
                    &&& next.automation == t.automation && next.now == t.now
                    &&& next.stage matches TickStage::SavingPending { due_at: d, pending } && d
                        == due_at && is_slot_record(pending, t.automation.id@, due_at, t.now)
                    &&& action is SavePending
                },
            }
        },
        TickEvent::PendingSaved => {
            &&& next.automation == t.automation && next.now == t.now
            &&& t.stage matches TickStage::SavingPending { due_at, pending } && next.stage == (
            TickStage::Enqueueing { due_at, pending })
            &&& action matches TickAction::Enqueue(req) && is_task_request(req, t.automation)
        },
        TickEvent::Enqueued { outcome, at } => {
            &&& next.automation == t.automation && next.now == t.now
            &&& t.stage matches TickStage::Enqueueing { due_at, pending } && (next.stage
                matches TickStage::SavingRun { due_at: d, pending: p } && d == due_at && p == (
            PendingEnqueueRecord { run: p.run, ..pending }) && is_enqueued(
                pending.run,
                outcome,
                at,
                p.run,
            ))
            &&& action is SaveRun
        },
        TickEvent::RunSaved => t.stage matches TickStage::SavingRun { due_at, pending }
            && tick_advances(zone, t, due_at, TickStage::SavingAdvanced { pending }, next, action),
        TickEvent::PendingDeleted => tick_ends(t, next, action),
    }
}

/// The slot that a rule plans lies after the time that it is planned from.
pub proof fn lemma_planned_slot_is_later(zone: Zone, rrule: Seq<char>, at: Timestamp, t: Timestamp)
    requires
        plausible(zone),
        at.wf(),
        planned_slot(zone, rrule, at, Ok(t)),
    ensures
        t.wf(),
        at.before(t),
{
    let parsed = choose|parsed: Result<AutomationSchedule, ScheduleError>| #[trigger]
        rrule_meaning(rrule, parsed) && match parsed {
            Err(e) => false,
            Ok(schedule) => slot_in_words(zone, schedule, at, Ok(t)),
        };
    lemma_slot_in_words_later(zone, rrule, parsed->Ok_0, at, t);
}

fn failed_with(e: &ScheduleError) -> (r: Failure)
    ensures
        r@ == e.text(),
{
    Failure { message: e.message() }
}

impl SlotTick {
    /// The handling of an automation's slot at `now`.
    pub fn new(automation: AutomationRecord, now: Timestamp) -> (r: Self)
        ensures
            r.automation == automation && r.now == now && r.stage is New,
    {
        SlotTick { automation, now, stage: TickStage::New }
    }

    /// The times that a step computes with lie in the calendar.
    pub open spec fn wf(self) -> bool {
        &&& self.now.wf()
        &&& self.automation.next_run_at matches Some(t) ==> t.wf()
        &&& match self.stage {
            TickStage::LookingUp { due_at } => due_at.wf(),
            TickStage::SavingPending { due_at, .. } => due_at.wf(),
            TickStage::Enqueueing { due_at, .. } => due_at.wf(),
            TickStage::SavingRun { due_at, .. } => due_at.wf(),
            TickStage::SavingCursor => self.automation.next_run_at is Some,
            _ => true,
        }
    }

    /// The automation has a cursor in the calendar.
    pub open spec fn has_cursor(self) -> bool {
        self.automation.next_run_at matches Some(t) && t.wf()
    }

    /// Whether the tick waits for an event of this sort.
    pub open spec fn expects(self, event: TickEvent) -> bool {
        match event {
            TickEvent::Begun => self.stage is New,
            TickEvent::AutomationSaved => self.stage is SavingLast || self.stage is SavingCursor
                || self.stage is SavingAdvanced,
            TickEvent::RunLoaded(_) => self.stage is LookingUp,
            TickEvent::PendingSaved => self.stage is SavingPending,
            TickEvent::Enqueued { .. } => self.stage is Enqueueing,
            TickEvent::RunSaved => self.stage is SavingRun,
            TickEvent::PendingDeleted => self.stage is Deleting,
        }
    }

    fn end(&mut self) -> (r: TickAction)
        ensures
            tick_ends(*old(self), *final(self), r),
    {
        self.stage = TickStage::Done;
        TickAction::Finish
    }

    fn fail(&mut self, e: Failure) -> (r: TickAction)
        ensures
            tick_fails(*old(self), e@, *final(self), r),
    {
        self.stage = TickStage::Done;
        TickAction::Fail(e)
    }

    fn move_cursor(&mut self, cursor: Timestamp, stage: TickStage) -> (r: TickAction)
        ensures
            tick_moves_cursor(*old(self), cursor, *final(self), r),
            final(self).stage == stage,
    {
        self.automation.next_run_at = Some(cursor);
        self.automation.updated_at = self.now;
        self.stage = stage;
        TickAction::SaveAutomation
    }

    fn advance<F: Fn(Timestamp) -> i32, G: Fn(i64) -> LocalTime>(
        &mut self,
        due_at: Timestamp,
        stage: TickStage,
        offset_of: &F,
        reading_of: &G,
    ) -> (r: TickAction)
        requires
            due_at.wf(),
            answers_plausibly(*offset_of, *reading_of),
        ensures
            tick_advances(
                zone_of(*offset_of, *reading_of),
                *old(self),
                due_at,
                stage,
                *final(self),
                r,
            ),
            final(self).automation.next_run_at == old(self).automation.next_run_at || final(self).has_cursor(),
            final(self).stage is Done || final(self).stage == stage,
    {
        let slot = plan_slot_with(
            self.automation.rrule.as_str(),
            due_at,
            offset_of,
            reading_of,
        );
        assert(planned_slot(
            zone_of(*offset_of, *reading_of),
            old(self).automation.rrule@,
            due_at,
            in_words(slot),
        ));
        match slot {
            Err(e) => self.fail(e),
            Ok(at) => {
                proof {
                    lemma_planned_slot_is_later(
                        zone_of(*offset_of, *reading_of),
                        self.automation.rrule@,
                        due_at,
                        at,
                    );
                }
                self.move_cursor(at, stage)
            },
        }
    }

    fn fast_forward<F: Fn(Timestamp) -> i32, G: Fn(i64) -> LocalTime>(
        &self,
        first: Timestamp,
        offset_of: &F,
        reading_of: &G,
    ) -> (r: Result<Timestamp, Failure>)
        requires
            first.wf(),
            self.now.wf(),
            answers_plausibly(*offset_of, *reading_of),
        ensures
            rule_latest(
                zone_of(*offset_of, *reading_of),
                self.automation.rrule@,
                first,
                self.now,
                in_words(r),
            ),
            r matches Ok(t) ==> t.wf(),
    {
        let ghost zone = zone_of(*offset_of, *reading_of);
        let ghost rule = self.automation.rrule@;
        let parsed = AutomationSchedule::parse_rrule(self.automation.rrule.as_str());
        assert(rrule_meaning(rule, parsed));
        match &parsed {
            Err(e) => Err(failed_with(e)),
            Ok(schedule) => {
                proof {
                    accepted_rules_are_well_formed(rule, *schedule);
                }
                let slot = schedule.latest_due_at_or_before_with(
                    first,
                    self.now,
                    offset_of,
                    reading_of,
                );
                assert(latest_due(zone, *schedule, first, self.now, slot));
                let out = match slot {
                    Ok(t) => Ok(t),
                    Err(e) => Err(failed_with(&e)),
                };
                assert(latest_in_words(zone, *schedule, first, self.now, in_words(out)));
                out
            },
        }
    }

    fn proceed<F: Fn(Timestamp) -> i32, G: Fn(i64) -> LocalTime>(
        &mut self,
        first: Timestamp,
        offset_of: &F,
        reading_of: &G,
    ) -> (r: TickAction)
        requires
            first.wf(),
            old(self).now.wf(),
            answers_plausibly(*offset_of, *reading_of),
        ensures
            tick_proceeds(zone_of(*offset_of, *reading_of), *old(self), first, *final(self), r),
            final(self).stage matches TickStage::LookingUp { due_at } ==> due_at.wf(),
            final(self).stage is Done || final(self).stage is LookingUp,
    {
        if self.now.is_before(&first) {
            return self.end();
        }
        let due = self.fast_forward(first, offset_of, reading_of);
        assert(rule_latest(
            zone_of(*offset_of, *reading_of),
            old(self).automation.rrule@,
            first,
            old(self).now,
            in_words(due),
        ));
        match due {
            Err(e) => self.fail(e),
            Ok(due_at) => {
                let run_id = slot_run_id(due_at);
                self.stage = TickStage::LookingUp { due_at };
                TickAction::LoadRun { run_id }
            },
        }
    }

    fn normalize(&self, cursor: Timestamp) -> (r: Result<Timestamp, Failure>)
        requires
            cursor.wf(),
        ensures
            rule_cursor(self.automation.rrule@, cursor, in_words(r)),
            r matches Ok(t) ==> t.wf(),
    {
        let ghost rule = self.automation.rrule@;
        let parsed = AutomationSchedule::parse_rrule(self.automation.rrule.as_str());
        assert(rrule_meaning(rule, parsed));
        match &parsed {
            Err(e) => Err(failed_with(e)),
            Ok(schedule) => match schedule.normalize_due_cursor(cursor) {
                Some(t) => Ok(t),
                None => Err(failed_with(&ScheduleError::OutOfRange)),
            },
        }
    }

    fn begin<F: Fn(Timestamp) -> i32, G: Fn(i64) -> LocalTime>(
        &mut self,
        offset_of: &F,
        reading_of: &G,
    ) -> (r: TickAction)
        requires
            old(self).wf(),
            answers_plausibly(*offset_of, *reading_of),
        ensures
            tick_begins(zone_of(*offset_of, *reading_of), *old(self), *final(self), r),
            final(self).wf(),
    {
        match self.automation.status {
            AutomationStatus::Paused => {
                return self.end();
            },
            AutomationStatus::Active => {},
        }
        let cursor = match self.automation.next_run_at {
            None => {
                let now = self.now;
                return self.advance(now, TickStage::SavingLast, offset_of, reading_of);
            },
            Some(cursor) => cursor,
        };
        let first = self.normalize(cursor);
        assert(rule_cursor(old(self).automation.rrule@, cursor, in_words(first)));
        match first {
            Err(e) => self.fail(e),
            Ok(at) => if at == cursor {
                self.proceed(at, offset_of, reading_of)
            } else {
                self.move_cursor(at, TickStage::SavingCursor)
            },
        }
    }

    /// Takes what happened and says what to do next, in the zone that the two last
    /// arguments answer for.
    pub fn step<F: Fn(Timestamp) -> i32, G: Fn(i64) -> LocalTime>(
        &mut self,
        event: TickEvent,
        offset_of: &F,
        reading_of: &G,
    ) -> (r: TickAction)
        requires
            old(self).wf(),
            old(self).expects(event),
            answers_plausibly(*offset_of, *reading_of),
        ensures
            tick_step(zone_of(*offset_of, *reading_of), *old(self), event, *final(self), r),
            final(self).wf(),
    {
        match event {
            TickEvent::Begun => self.begin(offset_of, reading_of),
            TickEvent::AutomationSaved => {
                let mut stage = TickStage::Done;
                std::mem::swap(&mut stage, &mut self.stage);
                match stage {
                    TickStage::SavingCursor => match self.automation.next_run_at {
                        Some(first) => self.proceed(first, offset_of, reading_of),
                        None => self.end(),
                    },
                    TickStage::SavingAdvanced { pending } => {
                        self.stage = TickStage::Deleting { pending };
                        TickAction::DeletePending
                    },
                    _ => self.end(),
                }
            },
            TickEvent::RunLoaded(found) => {
                let due_at = match &self.stage {
                    TickStage::LookingUp { due_at } => *due_at,
                    _ => self.now,
                };
                match found {
                    SlotLookup::Invalid => self.end(),
                    SlotLookup::Found(at) => if at == due_at {
                        self.advance(due_at, TickStage::SavingLast, offset_of, reading_of)
                    } else {
                        self.end()
                    },
                    SlotLookup::Missing => {
                        let pending = PendingEnqueueRecord::for_slot(
                            self.automation.id.as_str(),
                            due_at,
                            self.now,
                        );
                        self.stage = TickStage::SavingPending { due_at, pending };
                        TickAction::SavePending
                    },
                }
            },
            TickEvent::PendingSaved => {
                let mut stage = TickStage::Done;
                std::mem::swap(&mut stage, &mut self.stage);
                if let TickStage::SavingPending { due_at, pending } = stage {
                    self.stage = TickStage::Enqueueing { due_at, pending };
                }
                TickAction::Enqueue(task_request_for(&self.automation))
            },
            TickEvent::Enqueued { outcome, at } => {
                let mut stage = TickStage::Done;
                std::mem::swap(&mut stage, &mut self.stage);
                if let TickStage::Enqueueing { due_at, mut pending } = stage {
                    record_enqueue(&mut pending.run, outcome, at);
                    self.stage = TickStage::SavingRun { due_at, pending };
                }
                TickAction::SaveRun
            },
            TickEvent::RunSaved => {
                let mut stage = TickStage::Done;
                std::mem::swap(&mut stage, &mut self.stage);
                if let TickStage::SavingRun { due_at, pending } = stage {
                    self.advance(
                        due_at,
                        TickStage::SavingAdvanced { pending },
                        offset_of,
                        reading_of,
                    )
                } else {
                    self.end()
                }
            },
            TickEvent::PendingDeleted => self.end(),
        }
    }

    /// Takes what happened and says what to do next, in the machine's time zone.
    pub fn step_here(&mut self, event: TickEvent) -> (r: TickAction)
        requires
            old(self).wf(),
            old(self).expects(event),
        ensures
            tick_step(any_zone(), *old(self), event, *final(self), r),
            final(self).wf(),
    {
        let r = self.step(event, &local_offset, &local_time);
        proof {
            let zone = zone_of(local_offset, local_time);
            assert(zone_within(zone, any_zone()));
            lemma_tick_step_within(zone, any_zone(), *old(self), event, *self, r);
        }
        r
    }
}

proof fn lemma_planned_slot_within(
    small: Zone,
    large: Zone,
    rrule: Seq<char>,
    at: Timestamp,
    out: Result<Timestamp, Seq<char>>,
)
    requires
        zone_within(small, large),
        planned_slot(small, rrule, at, out),
    ensures
        planned_slot(large, rrule, at, out),
{
    let parsed = choose|parsed: Result<AutomationSchedule, ScheduleError>| #[trigger]
        rrule_meaning(rrule, parsed) && match parsed {
            Err(e) => out == Err::<Timestamp, _>(e.text()),
            Ok(schedule) => slot_in_words(small, schedule, at, out),
        };
    if let Ok(schedule) = parsed {
        lemma_slot_in_words_within(small, large, schedule, at, out);
    }
}

proof fn lemma_rule_latest_within(
    small: Zone,
    large: Zone,
    rrule: Seq<char>,
    first: Timestamp,
    now: Timestamp,
    out: Result<Timestamp, Seq<char>>,
)
    requires
        zone_within(small, large),
        rule_latest(small, rrule, first, now, out),
    ensures
        rule_latest(large, rrule, first, now, out),
{
    let parsed = choose|parsed: Result<AutomationSchedule, ScheduleError>| #[trigger]
        rrule_meaning(rrule, parsed) && match parsed {
            Err(e) => out == Err::<Timestamp, _>(e.text()),
            Ok(schedule) => latest_in_words(small, schedule, first, now, out),
        };
    if let Ok(schedule) = parsed {
        let slot = choose|slot: Result<Timestamp, ScheduleError>| #[trigger]
            latest_due(small, schedule, first, now, slot) && match slot {
                Err(e) => out == Err::<Timestamp, _>(e.text()),
                Ok(t) => out == Ok::<_, Seq<char>>(t),
            };
        lemma_latest_due_within(small, large, schedule, first, now, slot);
        assert(latest_in_words(large, schedule, first, now, out));
    }
}

proof fn lemma_tick_advances_within(
    small: Zone,
    large: Zone,
    t: SlotTick,
    due_at: Timestamp,
    stage: TickStage,
    next: SlotTick,
    action: TickAction,
)
    requires
        zone_within(small, large),
        tick_advances(small, t, due_at, stage, next, action),
    ensures
        tick_advances(large, t, due_at, stage, next, action),
{
    let slot = choose|slot: Result<Timestamp, Seq<char>>| #[trigger]
        planned_slot(small, t.automation.rrule@, due_at, slot) && match slot {
            Err(words) => tick_fails(t, words, next, action),
            Ok(at) => tick_moves_cursor(t, at, next, action) && next.stage == stage,
        };
    lemma_planned_slot_within(small, large, t.automation.rrule@, due_at, slot);
}

proof fn lemma_tick_proceeds_within(
    small: Zone,
    large: Zone,
    t: SlotTick,
    first: Timestamp,
    next: SlotTick,
    action: TickAction,
)
    requires
        zone_within(small, large),
        tick_proceeds(small, t, first, next, action),
    ensures
        tick_proceeds(large, t, first, next, action),
{
    if !t.now.before(first) {
        let due = choose|due: Result<Timestamp, Seq<char>>| #[trigger]
            rule_latest(small, t.automation.rrule@, first, t.now, due) && match due {
                Err(words) => tick_fails(t, words, next, action),
                Ok(at) => {
                    &&& next.automation == t.automation && next.now == t.now
                    &&& next.stage == (TickStage::LookingUp { due_at: at })
                    &&& action matches TickAction::LoadRun { run_id } && run_id@ == slot_id(at)
                },
            };
        lemma_rule_latest_within(small, large, t.automation.rrule@, first, t.now, due);
    }
}

/// A zone that may give more answers may give more steps.
pub proof fn lemma_tick_step_within(
    small: Zone,
    large: Zone,
    t: SlotTick,
    event: TickEvent,
    next: SlotTick,
    action: TickAction,
)
    requires
        zone_within(small, large),
        tick_step(small, t, event, next, action),
    ensures
        tick_step(large, t, event, next, action),
{
    match event {
        TickEvent::Begun => {
            if t.automation.status is Active {
                match t.automation.next_run_at {
                    None => {
                        lemma_tick_advances_within(
                            small,
                            large,
                            t,
                            t.now,
                            TickStage::SavingLast,
                            next,
                            action,
                        );
                    },
                    Some(cursor) => {
                        let first = choose|first: Result<Timestamp, Seq<char>>| #[trigger]
                            rule_cursor(t.automation.rrule@, cursor, first) && match first {
                                Err(words) => tick_fails(t, words, next, action),
                                Ok(at) => if at == cursor {
                                    tick_proceeds(small, t, at, next, action)
                                } else {
                                    tick_moves_cursor(t, at, next, action)
                                        && next.stage is SavingCursor
                                },
                            };
                        if first is Ok && first->Ok_0 == cursor {
                            lemma_tick_proceeds_within(small, large, t, cursor, next, action);
                        }
                    },
                }
            }
        },
        TickEvent::AutomationSaved => {
            if t.stage is SavingCursor {
                let first = t.automation.next_run_at->Some_0;
                lemma_tick_proceeds_within(small, large, t, first, next, action);
            }
        },
        TickEvent::RunLoaded(found) => {
            let due_at = t.stage->LookingUp_due_at;
            if found == SlotLookup::Found(due_at) {
                lemma_tick_advances_within(
                    small,
                    large,
                    t,
                    due_at,
                    TickStage::SavingLast,
                    next,
                    action,
                );
            }
        },
        TickEvent::RunSaved => {
            if let TickStage::SavingRun { due_at, pending } = t.stage {
                lemma_tick_advances_within(
                    small,
                    large,
                    t,
                    due_at,
                    TickStage::SavingAdvanced { pending },
                    next,
                    action,
                );
            }
        },
        _ => {},
    }
}

} // verus!
