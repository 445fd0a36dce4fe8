//! Journal records that an earlier process left behind.
//!
//! Their runs are queued again, under the key that the record holds, before any new
//! slot is looked at.
use vstd::prelude::*;
use vstd::string::*;

use crate::automation::{
    in_words, AutomationRecord, AutomationRunRecord, AutomationStatus,
};
use crate::enqueue::{
    after_manual, is_enqueued, is_task_request, record_enqueue, settle_manual, task_request_for,
    QueuedTask,
};
use crate::failure::Failure;
use crate::pending::{PendingEnqueueKind, PendingEnqueueRecord};
use crate::rrule::{rrule_meaning, AutomationSchedule, ScheduleError};
use crate::schedule::{
    answers_plausibly, any_zone, lemma_next_due_within, next_due, zone_of, zone_within, Zone,
};
use crate::schedule_laws::accepted_rules_are_well_formed;
use crate::task::NewTaskRequest;
use crate::text::{contains_text, copy_text, texts};
use crate::time::{local_offset, local_time, LocalTime, Timestamp};

verus! {

/// What becomes of an automation when a journal record has been taken up again.
#[derive(Debug, Clone, Copy, PartialEq, Eq, Structural)]
pub enum Recovery {
    /// The record has to be stored; the slot counts as handled.
    Recovered,
    /// The record has to be stored.
    Saved,
    /// Nothing: a paused automation is left as it is.
    Untouched,
}

/// The due time that an automation moves on to, in words where there is none.
pub open spec fn due_in_words(
    zone: Zone,
    schedule: AutomationSchedule,
    first_due: Timestamp,
    now: Timestamp,
    out: Result<Timestamp, Seq<char>>,
) -> bool {
    exists|slot: Result<Timestamp, ScheduleError>| #[trigger]
        next_due(zone, schedule, first_due, now, slot) && match slot {
            Err(e) => out == Err::<Timestamp, _>(e.text()),
            Ok(t) => out == Ok::<_, Seq<char>>(t),
        }
}

/// What a rule moves on to.
pub open spec fn moves_on(
    zone: Zone,
    rrule: Seq<char>,
    first_due: Timestamp,
    now: Timestamp,
    out: Result<Timestamp, Seq<char>>,
) -> bool {
    exists|parsed: Result<AutomationSchedule, ScheduleError>| #[trigger]
        rrule_meaning(rrule, parsed) && match parsed {
            Err(e) => out == Err::<Timestamp, _>(e.text()),
            Ok(schedule) => due_in_words(zone, schedule, first_due, now, out),
        }
}

/// What [`recover_automation`] makes of an automation.
pub open spec fn is_recovery(
    zone: Zone,
    automation: AutomationRecord,
    kind: PendingEnqueueKind,
    run: AutomationRunRecord,
    now: Timestamp,
    new: AutomationRecord,
    r: Result<Recovery, Failure>,
) -> bool {
    match kind {
        PendingEnqueueKind::Manual => r == Ok::<_, Failure>(Recovery::Saved) && new
            == after_manual(automation, run, now),
        PendingEnqueueKind::Scheduled => if automation.status is Paused {
            r == Ok::<_, Failure>(Recovery::Untouched) && new == automation
        } else {
            exists|due: Result<Timestamp, Seq<char>>| #[trigger]
                moves_on(zone, automation.rrule@, run.scheduled_for, now, due) && match due {
                    Err(words) => (r matches Err(e) && e@ == words) && new == automation,
                    Ok(t) => r == Ok::<_, Failure>(Recovery::Recovered) && new == (
                    AutomationRecord { next_run_at: Some(t), ..after_manual(automation, run, now) }),
                }
        },
    }
}

fn move_on<F: Fn(Timestamp) -> i32, G: Fn(i64) -> LocalTime>(
    rrule: &str,
    first_due: Timestamp,
    now: Timestamp,
    offset_of: &F,
    reading_of: &G,
) -> (r: Result<Timestamp, Failure>)
    requires
        first_due.wf(),
        now.wf(),
        answers_plausibly(*offset_of, *reading_of),
    ensures
        moves_on(zone_of(*offset_of, *reading_of), rrule@, first_due, now, in_words(r)),
{
    let ghost zone = zone_of(*offset_of, *reading_of);
    let parsed = AutomationSchedule::parse_rrule(rrule);
    assert(rrule_meaning(rrule@, parsed));
    match &parsed {
        Err(e) => Err(Failure { message: e.message() }),
        Ok(schedule) => {
            proof {
                accepted_rules_are_well_formed(rrule@, *schedule);
            }
            let slot = schedule.next_due_after_with(first_due, now, offset_of, reading_of);
            assert(next_due(zone, *schedule, first_due, now, slot));
            let out = match slot {
                Ok(t) => Ok(t),
                Err(e) => Err(Failure { message: e.message() }),
            };
            assert(due_in_words(zone, *schedule, first_due, now, in_words(out)));
            out
        },
    }
}

/// Works out what becomes of an automation once the run of a journal record has been
/// queued and stored.
pub fn recover_automation<F: Fn(Timestamp) -> i32, G: Fn(i64) -> LocalTime>(
    automation: &mut AutomationRecord,
    kind: PendingEnqueueKind,
    run: &AutomationRunRecord,
    now: Timestamp,
    offset_of: &F,
    reading_of: &G,
) -> (r: Result<Recovery, Failure>)
    requires
        run.scheduled_for.wf(),
        now.wf(),
        answers_plausibly(*offset_of, *reading_of),
    ensures
        is_recovery(
            zone_of(*offset_of, *reading_of),
            *old(automation),
            kind,
            *run,
            now,
            *final(automation),
            r,
        ),
{
    match kind {
        PendingEnqueueKind::Manual => {
            settle_manual(automation, run, now);
            Ok(Recovery::Saved)
        },
        PendingEnqueueKind::Scheduled => match automation.status {
            AutomationStatus::Paused => Ok(Recovery::Untouched),
            AutomationStatus::Active => {
                let due = move_on(
                    automation.rrule.as_str(),
                    run.scheduled_for,
                    now,
                    offset_of,
                    reading_of,
                );
                assert(moves_on(
                    zone_of(*offset_of, *reading_of),
                    old(automation).rrule@,
                    run.scheduled_for,
                    now,
                    in_words(due),
                ));
                match due {
                    Err(e) => Err(e),
                    Ok(t) => {
                        settle_manual(automation, run, now);
                        automation.next_run_at = Some(t);
                        Ok(Recovery::Recovered)
                    },
                }
            },
        },
    }
}

// The course of a resumption ---------------------------------------------------
/// Where the resumption of a journal record stands: what it waits for.
#[derive(Debug, Clone, Copy, PartialEq, Eq, Structural)]
pub enum ResumeStage {
    New,
    Enqueueing,
    SavingRun,
    SavingAutomation,
    Deleting,
    Done,
}

/// What happened since the last step.
#[derive(Debug)]
pub enum ResumeEvent {
    Begun,
    Enqueued { outcome: Result<QueuedTask, String>, at: Timestamp },
    RunSaved,
    AutomationSaved,
    PendingDeleted,
}

/// What to do next. The records to be stored stand in the [`Resumption`].
#[derive(Debug)]
pub enum ResumeAction {
    /// Queue a task under the key of the journal record.
    Enqueue(NewTaskRequest),
    SaveRun,
    SaveAutomation,
    DeletePending,
    Finish,
    Fail(Failure),
}

/// A journal record that is taken up again.
#[derive(Debug)]
pub struct Resumption {
    pub automation: AutomationRecord,
    pub pending: PendingEnqueueRecord,
    pub now: Timestamp,
    /// Whether a slot of the automation counts as handled.
    pub recovered: bool,
    pub stage: ResumeStage,
}

/// What [`Resumption::step`] does once the run has been stored.
pub open spec fn resume_settles(
    zone: Zone,
    s: Resumption,
    next: Resumption,
    action: ResumeAction,
) -> bool {
    exists|record: AutomationRecord, r: Result<Recovery, Failure>| #[trigger]
        is_recovery(zone, s.automation, s.pending.kind, s.pending.run, s.now, record, r) && {
            &&& next == (Resumption {
                automation: record,
                recovered: s.recovered || r == Ok::<_, Failure>(Recovery::Recovered),
                stage: next.stage,
                ..s
            })
            &&& match r {
                Err(e) => next.stage is Done && (action matches ResumeAction::Fail(f) && f == e),
                Ok(Recovery::Untouched) => next.stage is Deleting && action is DeletePending,
                Ok(_) => next.stage is SavingAutomation && action is SaveAutomation,
            }
        }
}

/// What [`Resumption::step`] does.
pub open spec fn resume_step(
    zone: Zone,
    s: Resumption,
    event: ResumeEvent,
    next: Resumption,
    action: ResumeAction,
) -> bool {
    match event {
        ResumeEvent::Begun => {
            &&& next == (Resumption { stage: ResumeStage::Enqueueing, ..s })
            &&& action matches ResumeAction::Enqueue(req) && is_task_request(req, s.automation)
        },
        ResumeEvent::Enqueued { outcome, at } => {
            &&& next == (Resumption {
                stage: ResumeStage::SavingRun,
                pending: PendingEnqueueRecord { run: next.pending.run, ..s.pending },
                ..s
            })
            &&& is_enqueued(s.pending.run, outcome, at, next.pending.run)
            &&& action is SaveRun
        },
        ResumeEvent::RunSaved => resume_settles(zone, s, next, action),
        ResumeEvent::AutomationSaved => next == (Resumption {
            stage: ResumeStage::Deleting,
            ..s
        }) && action is DeletePending,
        ResumeEvent::PendingDeleted => next == (Resumption { stage: ResumeStage::Done, ..s })
            && action is Finish,
    }
}

impl Resumption {
    /// The resumption of `pending`, a journal record of the automation.
    pub fn new(
        automation: AutomationRecord,
        pending: PendingEnqueueRecord,
        now: Timestamp,
        recovered: bool,
    ) -> (r: Self)
        ensures
            r == (Resumption { automation, pending, now, recovered, stage: ResumeStage::New }),
    {
        Resumption { automation, pending, now, recovered, stage: ResumeStage::New }
    }

    /// The times that a step computes with lie in the calendar.
    pub open spec fn wf(self) -> bool {
        self.now.wf() && self.pending.run.scheduled_for.wf()
    }

    /// Whether the resumption waits for an event of this sort.
    pub open spec fn expects(self, event: ResumeEvent) -> bool {
        match event {
            ResumeEvent::Begun => self.stage is New,
            ResumeEvent::Enqueued { .. } => self.stage is Enqueueing,
            ResumeEvent::RunSaved => self.stage is SavingRun,
            ResumeEvent::AutomationSaved => self.stage is SavingAutomation,
            ResumeEvent::PendingDeleted => self.stage is Deleting,
        }
    }

    /// Takes what happened and says what to do next, in the zone that the two last
    /// arguments answer for.
    pub fn step<F: Fn(Timestamp) -> i32, G: Fn(i64) -> LocalTime>(
        &mut self,
        event: ResumeEvent,
        offset_of: &F,
        reading_of: &G,
    ) -> (r: ResumeAction)
        requires
            old(self).wf(),
            old(self).expects(event),
            answers_plausibly(*offset_of, *reading_of),
        ensures
            resume_step(zone_of(*offset_of, *reading_of), *old(self), event, *final(self), r),
            final(self).wf(),
    {
        match event {
            ResumeEvent::Begun => {
                self.stage = ResumeStage::Enqueueing;
                ResumeAction::Enqueue(task_request_for(&self.automation))
            },
            ResumeEvent::Enqueued { outcome, at } => {
                record_enqueue(&mut self.pending.run, outcome, at);
                self.stage = ResumeStage::SavingRun;
                ResumeAction::SaveRun
            },
            ResumeEvent::RunSaved => {
                let r = recover_automation(
                    &mut self.automation,
                    self.pending.kind,
                    &self.pending.run,
                    self.now,
                    offset_of,
                    reading_of,
                );
                assert(is_recovery(
                    zone_of(*offset_of, *reading_of),
                    old(self).automation,
                    old(self).pending.kind,
                    old(self).pending.run,
                    old(self).now,
                    self.automation,
                    r,
                ));
                match r {
                    Err(e) => {
                        self.stage = ResumeStage::Done;
                        ResumeAction::Fail(e)
                    },
                    Ok(Recovery::Untouched) => {
                        self.stage = ResumeStage::Deleting;
                        ResumeAction::DeletePending
                    },
                    Ok(Recovery::Saved) => {
                        self.stage = ResumeStage::SavingAutomation;
                        ResumeAction::SaveAutomation
                    },
                    Ok(Recovery::Recovered) => {
                        self.recovered = true;
                        self.stage = ResumeStage::SavingAutomation;
                        ResumeAction::SaveAutomation
                    },
                }
            },
            ResumeEvent::AutomationSaved => {
                self.stage = ResumeStage::Deleting;
                ResumeAction::DeletePending
            },
            ResumeEvent::PendingDeleted => {
                self.stage = ResumeStage::Done;
                ResumeAction::Finish
            },
        }
    }

    /// Takes what happened and says what to do next, in the machine's time zone.
    pub fn step_here(&mut self, event: ResumeEvent) -> (r: ResumeAction)
        requires
            old(self).wf(),
            old(self).expects(event),
        ensures
            resume_step(any_zone(), *old(self), event, *final(self), r),
            final(self).wf(),
    {
        let r = self.step(event, &local_offset, &local_time);
        proof {
            let zone = zone_of(local_offset, local_time);
            assert(zone_within(zone, any_zone()));
            lemma_resume_step_within(zone, any_zone(), *old(self), event, *self, r);
        }
        r
    }
}

// The journals of all automations ----------------------------------------------
/// What taking up the journals has come to.
#[derive(Debug)]
pub struct RecoveryRound {
    /// The automations whose slot was recovered.
    pub recovered: Vec<String>,
    /// The automations whose journal cannot be trusted.
    pub blocked: Vec<String>,
}

/// Whether a journal can be trusted: it could be read, and every file in it holds a record
/// that may stand there.
pub open spec fn is_trusted(scan: Option<(Vec<PendingEnqueueRecord>, bool)>) -> bool {
    scan matches Some((_, invalid)) && !invalid
}

/// What [`RecoveryRound::take_up`] does.
pub open spec fn is_taken_up(
    old: RecoveryRound,
    automation_id: Seq<char>,
    scan: Option<(Vec<PendingEnqueueRecord>, bool)>,
    new: RecoveryRound,
    r: Seq<PendingEnqueueRecord>,
) -> bool {
    &&& new.recovered == old.recovered
    &&& if is_trusted(scan) {
        new.blocked == old.blocked && r == scan->Some_0.0@
    } else {
        texts(new.blocked@) == texts(old.blocked@).push(automation_id) && r.len() == 0
    }
}

impl RecoveryRound {
    /// No journal has been taken up.
    pub fn new() -> (r: Self)
        ensures
            texts(r.recovered@) == Seq::<Seq<char>>::empty(),
            texts(r.blocked@) == Seq::<Seq<char>>::empty(),
    {
        let r = RecoveryRound { recovered: Vec::new(), blocked: Vec::new() };
        assert(texts(r.recovered@) =~= Seq::empty());
        assert(texts(r.blocked@) =~= Seq::empty());
        r
    }

    /// The automation is left out of the tick.
    pub open spec fn left_out(self, automation_id: Seq<char>) -> bool {
        texts(self.recovered@).contains(automation_id) || texts(self.blocked@).contains(
            automation_id,
        )
    }

    /// The records of an automation's journal that are to be taken up again: all, or none
    /// where the journal cannot be trusted. `scan` is nothing where it could not be read; else
    /// it says whether there is a file that holds no record that may stand there.
    pub fn take_up(
        &mut self,
        automation_id: &str,
        scan: Option<(Vec<PendingEnqueueRecord>, bool)>,
    ) -> (r: Vec<PendingEnqueueRecord>)
        ensures
            is_taken_up(*old(self), automation_id@, scan, *final(self), r@),
    {
        match scan {
            Some((records, invalid)) if !invalid => records,
            _ => {
                let ghost before = self.blocked@;
                self.blocked.push(copy_text(automation_id));
                assert(texts(self.blocked@) =~= texts(before).push(automation_id@));
                Vec::new()
            },
        }
    }

    /// Notes that a slot of the automation was recovered.
    pub fn note_recovered(&mut self, automation_id: &str)
        ensures
            texts(final(self).recovered@) == texts(old(self).recovered@).push(automation_id@),
            final(self).blocked == old(self).blocked,
    {
        let ghost before = self.recovered@;
        self.recovered.push(copy_text(automation_id));
        assert(texts(self.recovered@) =~= texts(before).push(automation_id@));
    }

    /// Whether the automation is left out of the tick: its slot was recovered in it, or its
    /// journal cannot be trusted.
    pub fn leaves_out(&self, automation_id: &str) -> (r: bool)
        ensures
            r == self.left_out(automation_id@),
    {
        contains_text(&self.recovered, automation_id) || contains_text(&self.blocked, automation_id)
    }
}

proof fn lemma_moves_on_within(
    small: Zone,
    large: Zone,
    rrule: Seq<char>,
    first_due: Timestamp,
    now: Timestamp,
    out: Result<Timestamp, Seq<char>>,
)
    requires
        zone_within(small, large),
        moves_on(small, rrule, first_due, now, out),
    ensures
        moves_on(large, rrule, first_due, now, out),
{
    let parsed = choose|parsed: Result<AutomationSchedule, ScheduleError>| #[trigger]
        rrule_meaning(rrule, parsed) && match parsed {
            Err(e) => out == Err::<Timestamp, _>(e.text()),
            Ok(schedule) => due_in_words(small, schedule, first_due, now, out),
        };
    if let Ok(schedule) = parsed {
        let slot = choose|slot: Result<Timestamp, ScheduleError>| #[trigger]
            next_due(small, schedule, first_due, now, slot) && match slot {
                Err(e) => out == Err::<Timestamp, _>(e.text()),
                Ok(t) => out == Ok::<_, Seq<char>>(t),
            };
        lemma_next_due_within(small, large, schedule, first_due, now, slot);
        assert(due_in_words(large, schedule, first_due, now, out));
    }
}

proof fn lemma_resume_step_within(
    small: Zone,
    large: Zone,
    s: Resumption,
    event: ResumeEvent,
    next: Resumption,
    action: ResumeAction,
)
    requires
        zone_within(small, large),
        resume_step(small, s, event, next, action),
    ensures
        resume_step(large, s, event, next, action),
{
    if event is RunSaved {
        let (record, r) = choose|record: AutomationRecord, r: Result<Recovery, Failure>| #[trigger]
            is_recovery(small, s.automation, s.pending.kind, s.pending.run, s.now, record, r) && {
                &&& next == (Resumption {
                    automation: record,
                    recovered: s.recovered || r == Ok::<_, Failure>(Recovery::Recovered),
                    stage: next.stage,
                    ..s
                })
                &&& match r {
                    Err(e) => next.stage is Done && (action matches ResumeAction::Fail(f) && f
                        == e),
                    Ok(Recovery::Untouched) => next.stage is Deleting && action is DeletePending,
                    Ok(_) => next.stage is SavingAutomation && action is SaveAutomation,
                }
            };
        if s.pending.kind is Scheduled && s.automation.status is Active {
            let rrule = s.automation.rrule@;
            let due = choose|due: Result<Timestamp, Seq<char>>| #[trigger]
                moves_on(small, rrule, s.pending.run.scheduled_for, s.now, due) && match due {
                    Err(words) => (r matches Err(e) && e@ == words) && record == s.automation,
                    Ok(t) => r == Ok::<_, Failure>(Recovery::Recovered) && record == (
                    AutomationRecord {
                        next_run_at: Some(t),
                        ..after_manual(s.automation, s.pending.run, s.now)
                    }),
                };
            lemma_moves_on_within(small, large, rrule, s.pending.run.scheduled_for, s.now, due);
        }
        assert(is_recovery(
            large,
            s.automation,
            s.pending.kind,
            s.pending.run,
            s.now,
            record,
            r,
        ));
    }
}

} // verus!
