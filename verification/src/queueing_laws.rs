//! What a run hands to its task and takes back from it, field by field: in the ticks of the
//! scheduler, in what an earlier process left behind, and in runs by hand.
use vstd::prelude::*;
use vstd::string::*;

use crate::automation::{
    later_of, planned_slot, slot_in_words, AutomationRecord, AutomationRunRecord,
    AutomationRunStatus,
};
use crate::enqueue::{after_manual, is_enqueued, is_task_request, QueuedTask};
use crate::failure::Failure;
use crate::ids::uuid_of;
use crate::journal_laws::{ManualMove, ResumeMove};
use crate::manual_run::{ManualAction, ManualEvent, ManualStage};
use crate::pending::{is_manual_record, is_slot_record, PendingEnqueueKind, PendingEnqueueRecord};
use crate::reconcile::{
    are_steps, follows_task, is_plan, is_progress_of, is_step, latest_end, records_to_save,
    ObservedRun, ReconcilePlan, RunStep, TaskProgress,
};
use crate::resumption::{
    due_in_words, is_recovery, moves_on, Recovery, ResumeAction, ResumeEvent,
};
use crate::rrule::{rrule_meaning, AutomationSchedule, ScheduleError};
use crate::schedule::{latest_due, next_due, next_slot, normalized_cursor, Zone};
use crate::scheduler::{
    latest_in_words, rule_cursor, rule_latest, tick_advances, tick_fails, tick_moves_cursor,
    tick_proceeds, SlotLookup, SlotTick, TickAction, TickEvent, TickStage, MIN_TICK_INTERVAL_SECS,
};
use crate::scheduler_laws::TickStep;
use crate::task::{NewTaskRequest, TaskRecord, TaskStatus};
use crate::text::{dec_int, trimmed};
use crate::time::Timestamp;

verus! {

/// Both texts are missing, or both are there and say the same.
pub open spec fn same_words(a: Option<String>, b: Option<String>) -> bool {
    match (a, b) {
        (Some(x), Some(y)) => x@ == y@,
        (None, None) => true,
        _ => false,
    }
}

/// The first directory of an automation, where it has one.
pub open spec fn is_first_directory(workspace: Option<String>, cwds: Seq<String>) -> bool {
    match workspace {
        Some(dir) => cwds.len() > 0 && dir@ == cwds[0]@,
        None => cwds.len() == 0,
    }
}

/// A switch of a request is set just as the automation's is, and off where that says nothing.
pub open spec fn is_switch(asked: Option<bool>, own: Option<bool>) -> bool {
    match own {
        Some(on) => asked == Some(on),
        None => asked == Some(false),
    }
}

/// A tick that queues a task asks for what the automation says: its prompt, its model, its first
/// directory, its mode and its switches.
pub proof fn ticks_ask_for_the_automations_task(zone: Zone, s: TickStep, req: NewTaskRequest)
    requires
        s.is_step(zone),
        s.action == TickAction::Enqueue(req),
    ensures
        req.prompt@ == s.before.automation.prompt@,
        same_words(req.model, s.before.automation.model),
        is_first_directory(req.workspace, s.before.automation.cwds@),
        is_switch(req.allow_shell, s.before.automation.allow_shell),
        is_switch(req.trust_mode, s.before.automation.trust_mode),
        is_switch(req.auto_approve, s.before.automation.auto_approve),
        is_mode_asked(req.mode, s.before.automation.mode),
{
    assert(is_task_request(req, s.before.automation)) by {
        assert(s.event is PendingSaved) by {
            lemma_tick_enqueues(zone, s);
        }
    }
}

/// The mode is the automation's without white space round it, or `agent` where it has none.
pub open spec fn is_mode_asked(asked: Option<String>, own: Option<String>) -> bool {
    asked matches Some(mode) && match own {
        Some(word) => if trimmed(word@).len() == 0 {
            mode@ == "agent"@
        } else {
            mode@ == trimmed(word@)
        },
        None => mode@ == "agent"@,
    }
}

proof fn lemma_tick_enqueues(zone: Zone, s: TickStep)
    requires
        s.is_step(zone),
        s.action is Enqueue,
    ensures
        s.event is PendingSaved,
{
}

/// What an earlier process left behind is asked for again as the automation says.
pub proof fn resumptions_ask_for_the_automations_task(
    zone: Zone,
    s: ResumeMove,
    req: NewTaskRequest,
)
    requires
        s.is_step(zone),
        s.action == ResumeAction::Enqueue(req),
    ensures
        req.prompt@ == s.before.automation.prompt@,
        same_words(req.model, s.before.automation.model),
        is_first_directory(req.workspace, s.before.automation.cwds@),
        is_switch(req.allow_shell, s.before.automation.allow_shell),
        is_switch(req.trust_mode, s.before.automation.trust_mode),
        is_switch(req.auto_approve, s.before.automation.auto_approve),
        is_mode_asked(req.mode, s.before.automation.mode),
        s.after.automation == s.before.automation,
        s.after.pending == s.before.pending,
{
}

/// A run by hand asks for what the automation says.
pub proof fn runs_by_hand_ask_for_the_automations_task(s: ManualMove, req: NewTaskRequest)
    requires
        s.is_step(),
        s.action == ManualAction::Enqueue(req),
    ensures
        req.prompt@ == s.before.automation.prompt@,
        same_words(req.model, s.before.automation.model),
        is_first_directory(req.workspace, s.before.automation.cwds@),
        is_switch(req.allow_shell, s.before.automation.allow_shell),
        is_switch(req.trust_mode, s.before.automation.trust_mode),
        is_switch(req.auto_approve, s.before.automation.auto_approve),
        is_mode_asked(req.mode, s.before.automation.mode),
        s.after.automation == s.before.automation,
{
}

/// The run of a task has the status of its task, under the same name.
pub open spec fn is_same_status(run: AutomationRunStatus, task: TaskStatus) -> bool {
    match run {
        AutomationRunStatus::Queued => task is Queued,
        AutomationRunStatus::Running => task is Running,
        AutomationRunStatus::Completed => task is Completed,
        AutomationRunStatus::Failed => task is Failed,
        AutomationRunStatus::Canceled => task is Canceled,
    }
}

/// A run whose task was queued takes over the task's name, status, times, links and error; one
/// whose task could not be queued has failed at that time, with the reason. What the run is about
/// stays.
pub proof fn runs_record_what_became_of_their_task(
    run: AutomationRunRecord,
    outcome: Result<QueuedTask, String>,
    now: Timestamp,
    new: AutomationRunRecord,
)
    requires
        is_enqueued(run, outcome, now, new),
    ensures
        new.schema_version == run.schema_version,
        new.id == run.id,
        new.automation_id == run.automation_id,
        new.scheduled_for == run.scheduled_for,
        new.created_at == run.created_at,
        outcome matches Ok(task) ==> {
            &&& new.task_id matches Some(id) && id@ == task.id@
            &&& is_same_status(new.status, task.progress.status)
            &&& new.started_at == task.progress.started_at
            &&& new.ended_at == task.progress.ended_at
            &&& same_words(new.thread_id, task.progress.thread_id)
            &&& same_words(new.turn_id, task.progress.turn_id)
            &&& same_words(new.error, task.progress.error)
        },
        outcome matches Err(why) ==> {
            &&& new.status is Failed
            &&& new.ended_at == Some(now)
            &&& new.started_at == run.started_at
            &&& new.task_id == run.task_id && new.thread_id == run.thread_id && new.turn_id
                == run.turn_id
            &&& new.error matches Some(words) && words@ == "Failed to enqueue task: "@ + why@
        },
{
}

/// The three courses note on the run of the journal record what became of its task, and on nothing
/// else.
pub proof fn ticks_note_what_became_of_the_task(
    zone: Zone,
    s: TickStep,
    outcome: Result<QueuedTask, String>,
    at: Timestamp,
)
    requires
        s.is_step(zone),
        s.event == (TickEvent::Enqueued { outcome, at }),
    ensures
        s.action is SaveRun,
        s.after.automation == s.before.automation,
        s.before.stage matches TickStage::Enqueueing { due_at, pending } && (s.after.stage
            matches TickStage::SavingRun { due_at: d, pending: p } && d == due_at && p.slot_key
            == pending.slot_key && p.kind == pending.kind && is_enqueued(
            pending.run,
            outcome,
            at,
            p.run,
        )),
{
}

/// The journal record of a slot: the key, the identifier and the run, all of the slot's time in
/// microseconds and of the automation's identifier.
pub proof fn slot_records_name_their_slot(
    record: PendingEnqueueRecord,
    automation_id: Seq<char>,
    at: Timestamp,
    now: Timestamp,
)
    requires
        is_slot_record(record, automation_id, at, now),
    ensures
        record.schema_version == 1,
        record.kind is Scheduled,
        record.slot_key@ == "automation:"@ + automation_id + ":slot:"@ + dec_int(
            at.secs * 1_000_000 + at.nanos as int / 1_000,
        ),
        record.run.id@ == "slot_"@ + dec_int(at.secs * 1_000_000 + at.nanos as int / 1_000),
        record.run.automation_id@ == automation_id,
        record.run.scheduled_for == at,
        record.run.created_at == now,
        record.run.schema_version == 1,
        is_untouched(record.run),
{
}

/// Nothing has happened to a run yet.
pub open spec fn is_untouched(run: AutomationRunRecord) -> bool {
    &&& run.status is Queued
    &&& run.started_at is None && run.ended_at is None
    &&& run.task_id is None && run.thread_id is None && run.turn_id is None && run.error is None
}

/// The journal record of a run by hand: the key and the identifier hold the caller's name for it,
/// and it is scheduled for the time it was asked for.
pub proof fn manual_records_name_their_invocation(
    record: PendingEnqueueRecord,
    automation_id: Seq<char>,
    invocation: Seq<char>,
    now: Timestamp,
)
    requires
        is_manual_record(record, automation_id, invocation, now),
    ensures
        record.schema_version == 1,
        record.kind is Manual,
        record.slot_key@ == "automation:"@ + automation_id + ":manual:"@ + invocation,
        record.run.id@ == "manual_"@ + invocation,
        record.run.automation_id@ == automation_id,
        record.run.scheduled_for == now,
        record.run.created_at == now,
        record.run.schema_version == 1,
        is_untouched(record.run),
{
}

/// A rule's slot after a time, by the schedule that the rule stands for.
proof fn lemma_planned(zone: Zone, rrule: Seq<char>, at: Timestamp, t: Timestamp)
    requires
        planned_slot(zone, rrule, at, Ok(t)),
    ensures
        exists|schedule: AutomationSchedule| #[trigger]
            rrule_meaning(rrule, Ok(schedule)) && next_slot(zone, schedule, at, Ok(t)),
{
    let parsed = choose|parsed: Result<AutomationSchedule, ScheduleError>| #[trigger]
        rrule_meaning(rrule, parsed) && match parsed {
            Err(e) => false,
            Ok(schedule) => slot_in_words(zone, schedule, at, Ok(t)),
        };
    let schedule = parsed->Ok_0;
    let slot = choose|slot: Result<Timestamp, ScheduleError>| #[trigger]
        next_slot(zone, schedule, at, slot) && match slot {
            Err(e) => false,
            Ok(x) => x == t,
        };
    assert(slot == Ok::<Timestamp, ScheduleError>(t));
    assert(rrule_meaning(rrule, Ok(schedule)));
}

proof fn lemma_advanced(
    zone: Zone,
    t: SlotTick,
    due_at: Timestamp,
    stage: TickStage,
    next: SlotTick,
    action: TickAction,
)
    requires
        tick_advances(zone, t, due_at, stage, next, action),
        action is SaveAutomation,
    ensures
        next.automation.next_run_at matches Some(at) && {
            &&& next.automation == (AutomationRecord {
                next_run_at: Some(at),
                updated_at: t.now,
                ..t.automation
            })
            &&& exists|schedule: AutomationSchedule| #[trigger]
                rrule_meaning(t.automation.rrule@, Ok(schedule)) && next_slot(
                    zone,
                    schedule,
                    due_at,
                    Ok(at),
                )
        },
{
    let slot = choose|slot: Result<Timestamp, Seq<char>>| #[trigger]
        planned_slot(zone, t.automation.rrule@, due_at, slot) && match slot {
            Err(words) => tick_fails(t, words, next, action),
            Ok(at) => tick_moves_cursor(t, at, next, action) && next.stage == stage,
        };
    lemma_planned(zone, t.automation.rrule@, due_at, slot->Ok_0);
}

/// Once the run of a slot is stored, or is found stored for that time, the automation moves on to
/// the slot after it; its other fields stay, but for the time of the change.
pub proof fn handled_slots_lead_to_the_slot_after(zone: Zone, s: TickStep, due_at: Timestamp)
    requires
        s.is_step(zone),
        s.action is SaveAutomation,
        s.event is RunSaved ==> s.before.stage->SavingRun_due_at == due_at,
        s.event is RunLoaded ==> s.before.stage->LookingUp_due_at == due_at,
        s.event is RunSaved || s.event is RunLoaded,
    ensures
        s.event is RunLoaded ==> s.event == TickEvent::RunLoaded(SlotLookup::Found(due_at)),
        s.after.automation.next_run_at matches Some(at) && {
            &&& s.after.automation == (AutomationRecord {
                next_run_at: Some(at),
                updated_at: s.before.now,
                ..s.before.automation
            })
            &&& exists|schedule: AutomationSchedule| #[trigger]
                rrule_meaning(s.before.automation.rrule@, Ok(schedule)) && next_slot(
                    zone,
                    schedule,
                    due_at,
                    Ok(at),
                )
        },
{
    match s.event {
        TickEvent::RunSaved => {
            let pending = s.before.stage->SavingRun_pending;
            lemma_advanced(
                zone,
                s.before,
                due_at,
                TickStage::SavingAdvanced { pending },
                s.after,
                s.action,
            );
        },
        _ => {
            lemma_advanced(zone, s.before, due_at, TickStage::SavingLast, s.after, s.action);
        },
    }
}

/// An automation without a cursor gets the slot after the time of the tick.
pub proof fn missing_cursors_lead_to_the_next_slot(zone: Zone, s: TickStep)
    requires
        s.is_step(zone),
        s.event is Begun,
        s.before.automation.status is Active,
        s.before.automation.next_run_at is None,
    ensures
        s.action is SaveAutomation || s.action is Fail,
        s.action is SaveAutomation ==> (s.after.automation.next_run_at matches Some(at) && {
            &&& s.after.automation == (AutomationRecord {
                next_run_at: Some(at),
                updated_at: s.before.now,
                ..s.before.automation
            })
            &&& exists|schedule: AutomationSchedule| #[trigger]
                rrule_meaning(s.before.automation.rrule@, Ok(schedule)) && next_slot(
                    zone,
                    schedule,
                    s.before.now,
                    Ok(at),
                )
        }),
        s.action is Fail ==> s.after.automation == s.before.automation,
{
    if s.action is SaveAutomation {
        lemma_advanced(zone, s.before, s.before.now, TickStage::SavingLast, s.after, s.action);
    }
}

/// An automation whose cursor is still ahead is left as it is; the cursor of a schedule of minutes
/// that stands inside a minute is first brought to the minute's end, and stored.
pub proof fn cursors_ahead_are_left_alone(zone: Zone, s: TickStep, cursor: Timestamp)
    requires
        s.is_step(zone),
        s.event is Begun,
        s.before.automation.status is Active,
        s.before.automation.next_run_at == Some(cursor),
    ensures
        s.action is Finish ==> s.after.automation == s.before.automation && (
        s.before.now.secs < cursor.secs || (s.before.now.secs == cursor.secs && s.before.now.nanos
            < cursor.nanos)),
        s.action is SaveAutomation ==> (s.after.automation.next_run_at matches Some(at) && {
            &&& s.after.automation == (AutomationRecord {
                next_run_at: Some(at),
                updated_at: s.before.now,
                ..s.before.automation
            })
            &&& at.secs as int % 60 == 0 && at.nanos == 0
            &&& cursor.secs < at.secs <= cursor.secs + 60
            &&& at != cursor
        }),
        s.action is LoadRun ==> !(s.before.now.secs < cursor.secs || (s.before.now.secs
            == cursor.secs && s.before.now.nanos < cursor.nanos)),
{
    let t = s.before;
    let first = choose|first: Result<Timestamp, Seq<char>>| #[trigger]
        rule_cursor(t.automation.rrule@, cursor, first) && match first {
            Err(words) => tick_fails(t, words, s.after, s.action),
            Ok(at) => if at == cursor {
                tick_proceeds(zone, t, at, s.after, s.action)
            } else {
                tick_moves_cursor(t, at, s.after, s.action) && s.after.stage is SavingCursor
            },
        };
    if let Ok(at) = first {
        let parsed = choose|parsed: Result<AutomationSchedule, ScheduleError>| #[trigger]
            rrule_meaning(t.automation.rrule@, parsed) && match parsed {
                Err(e) => false,
                Ok(schedule) => normalized_cursor(schedule, cursor) == Some(at),
            };
    }
}

proof fn lemma_proceeds(
    zone: Zone,
    t: SlotTick,
    first: Timestamp,
    next: SlotTick,
    action: TickAction,
    run_id: String,
)
    requires
        tick_proceeds(zone, t, first, next, action),
        action == (TickAction::LoadRun { run_id }),
    ensures
        next.stage matches TickStage::LookingUp { due_at } && {
            &&& run_id@ == "slot_"@ + dec_int(
                due_at.secs * 1_000_000 + due_at.nanos as int / 1_000,
            )
            &&& exists|schedule: AutomationSchedule| #[trigger]
                rrule_meaning(t.automation.rrule@, Ok(schedule)) && latest_due(
                    zone,
                    schedule,
                    first,
                    t.now,
                    Ok(due_at),
                )
        },
        next.automation == t.automation,
{
    let rrule = t.automation.rrule@;
    let due = choose|due: Result<Timestamp, Seq<char>>| #[trigger]
        rule_latest(zone, rrule, first, t.now, due) && match due {
            Err(words) => tick_fails(t, words, next, action),
            Ok(at) => {
                &&& next.automation == t.automation && next.now == t.now
                &&& next.stage == (TickStage::LookingUp { due_at: at })
                &&& action matches TickAction::LoadRun { run_id } && run_id@
                    == crate::pending::slot_id(at)
            },
        };
    let at = due->Ok_0;
    let parsed = choose|parsed: Result<AutomationSchedule, ScheduleError>| #[trigger]
        rrule_meaning(rrule, parsed) && match parsed {
            Err(e) => false,
            Ok(schedule) => latest_in_words(zone, schedule, first, t.now, Ok(at)),
        };
    let schedule = parsed->Ok_0;
    let slot = choose|slot: Result<Timestamp, ScheduleError>| #[trigger]
        latest_due(zone, schedule, first, t.now, slot) && match slot {
            Err(e) => false,
            Ok(x) => x == at,
        };
    assert(slot == Ok::<Timestamp, ScheduleError>(at));
    assert(rrule_meaning(rrule, Ok(schedule)));
}

/// A slot that is due is looked up under its own identifier; it is the one that the rule
/// fast-forwards to from the cursor.
pub proof fn due_slots_are_looked_up(zone: Zone, s: TickStep, run_id: String, cursor: Timestamp)
    requires
        s.is_step(zone),
        s.action == (TickAction::LoadRun { run_id }),
        s.before.automation.next_run_at == Some(cursor),
    ensures
        s.after.stage matches TickStage::LookingUp { due_at } && {
            &&& run_id@ == "slot_"@ + dec_int(
                due_at.secs * 1_000_000 + due_at.nanos as int / 1_000,
            )
            &&& exists|schedule: AutomationSchedule| #[trigger]
                rrule_meaning(s.before.automation.rrule@, Ok(schedule)) && latest_due(
                    zone,
                    schedule,
                    cursor,
                    s.before.now,
                    Ok(due_at),
                )
        },
        s.after.automation == s.before.automation,
{
    let t = s.before;
    if s.event is Begun {
        let first = choose|first: Result<Timestamp, Seq<char>>| #[trigger]
            rule_cursor(t.automation.rrule@, cursor, first) && match first {
                Err(words) => tick_fails(t, words, s.after, s.action),
                Ok(at) => if at == cursor {
                    tick_proceeds(zone, t, at, s.after, s.action)
                } else {
                    tick_moves_cursor(t, at, s.after, s.action) && s.after.stage is SavingCursor
                },
            };
        assert(first == Ok::<Timestamp, Seq<char>>(cursor));
    }
    assert(tick_proceeds(zone, t, cursor, s.after, s.action));
    lemma_proceeds(zone, t, cursor, s.after, s.action, run_id);
}

/// The later of two times is one of them, and neither comes after it.
pub proof fn the_later_time_counts(known: Option<Timestamp>, t: Timestamp)
    ensures
        later_of(known, t) == t || Some(later_of(known, t)) == known,
        t.secs < later_of(known, t).secs || (t.secs == later_of(known, t).secs && t.nanos
            <= later_of(known, t).nanos),
        known matches Some(k) ==> k.secs < later_of(known, t).secs || (k.secs == later_of(
            known,
            t,
        ).secs && k.nanos <= later_of(known, t).nanos),
{
}

/// A run by hand that was queued or has ended marks its automation as changed; its last run is
/// noted only once it has ended, at its end or, where that is unknown, now, and never moves back.
/// The cursor of the schedule is not touched.
pub proof fn runs_by_hand_leave_the_schedule_alone(
    automation: AutomationRecord,
    run: AutomationRunRecord,
    now: Timestamp,
)
    ensures
        ({
            let new = after_manual(automation, run, now);
            &&& new == (AutomationRecord {
                updated_at: now,
                last_run_at: new.last_run_at,
                ..automation
            })
            &&& run.status is Queued || run.status is Running ==> new.last_run_at
                == automation.last_run_at
            &&& run.status is Completed || run.status is Failed || run.status is Canceled ==> {
                &&& new.last_run_at is Some
                &&& run.ended_at is None && automation.last_run_at is None ==> new.last_run_at
                    == Some(now)
                &&& run.ended_at is Some && automation.last_run_at is None ==> new.last_run_at
                    == run.ended_at
                &&& automation.last_run_at matches Some(k) ==> {
                    let end = match run.ended_at {
                        Some(e) => e,
                        None => now,
                    };
                    new.last_run_at == Some(
                        if k.secs < end.secs || (k.secs == end.secs && k.nanos < end.nanos) {
                            end
                        } else {
                            k
                        },
                    )
                }
            }
        }),
{
}

/// An active automation whose slot was taken up again moves on to the slot that comes next after
/// now, counted from the slot; a paused one stays as it is; a run by hand moves nothing.
pub proof fn recovered_slots_lead_to_what_comes_next(
    zone: Zone,
    automation: AutomationRecord,
    kind: PendingEnqueueKind,
    run: AutomationRunRecord,
    now: Timestamp,
    new: AutomationRecord,
    r: Result<Recovery, Failure>,
)
    requires
        is_recovery(zone, automation, kind, run, now, new, r),
    ensures
        new.id == automation.id && new.name == automation.name && new.prompt == automation.prompt
            && new.rrule == automation.rrule && new.cwds == automation.cwds && new.model
            == automation.model && new.mode == automation.mode && new.status == automation.status
            && new.created_at == automation.created_at,
        kind is Manual ==> {
            &&& r == Ok::<_, Failure>(Recovery::Saved)
            &&& new.updated_at == now
            &&& new.next_run_at == automation.next_run_at
        },
        kind is Scheduled && automation.status is Paused ==> r == Ok::<_, Failure>(
            Recovery::Untouched,
        ) && new == automation,
        kind is Scheduled && automation.status is Active && r is Ok ==> {
            &&& r == Ok::<_, Failure>(Recovery::Recovered)
            &&& new.updated_at == now
            &&& new.next_run_at matches Some(t) && exists|schedule: AutomationSchedule| #[trigger]
                rrule_meaning(automation.rrule@, Ok(schedule)) && next_due(
                    zone,
                    schedule,
                    run.scheduled_for,
                    now,
                    Ok(t),
                )
        },
        r is Err ==> new == automation,
{
    if kind is Scheduled && automation.status is Active {
        let rrule = automation.rrule@;
        let slot = run.scheduled_for;
        let due = choose|due: Result<Timestamp, Seq<char>>| #[trigger]
            moves_on(zone, rrule, slot, now, due) && match due {
                Err(words) => (r matches Err(e) && e@ == words) && new == automation,
                Ok(t) => r == Ok::<_, Failure>(Recovery::Recovered) && new == (AutomationRecord {
                    next_run_at: Some(t),
                    ..after_manual(automation, run, now)
                }),
            };
        if let Ok(t) = due {
            let parsed = choose|parsed: Result<AutomationSchedule, ScheduleError>| #[trigger]
                rrule_meaning(rrule, parsed) && match parsed {
                    Err(e) => false,
                    Ok(schedule) => due_in_words(zone, schedule, slot, now, Ok(t)),
                };
            let schedule = parsed->Ok_0;
            let found = choose|found: Result<Timestamp, ScheduleError>| #[trigger]
                next_due(zone, schedule, slot, now, found) && match found {
                    Err(e) => false,
                    Ok(at) => at == t,
                };
            assert(found == Ok::<Timestamp, ScheduleError>(t));
            assert(rrule_meaning(rrule, Ok(schedule)));
        }
    }
}

/// The course of a resumption once its run is stored: what it was about stays, and it ends by
/// storing the automation, by deleting the journal record of a paused one, or in a failure.
pub proof fn resumptions_settle_their_automation(zone: Zone, s: ResumeMove)
    requires
        s.is_step(zone),
    ensures
        s.after.now == s.before.now,
        s.event is RunSaved ==> s.after.pending == s.before.pending && (exists|
            r: Result<Recovery, Failure>,
        | #[trigger]
            is_recovery(
                zone,
                s.before.automation,
                s.before.pending.kind,
                s.before.pending.run,
                s.before.now,
                s.after.automation,
                r,
            ) && match r {
                Err(e) => s.action == ResumeAction::Fail(e),
                Ok(Recovery::Untouched) => s.action is DeletePending && s.after.recovered
                    == s.before.recovered,
                Ok(Recovery::Saved) => s.action is SaveAutomation && s.after.recovered
                    == s.before.recovered,
                Ok(Recovery::Recovered) => s.action is SaveAutomation && s.after.recovered,
            }),
        s.event is AutomationSaved ==> s.action is DeletePending && s.after.stage is Deleting,
        s.event is PendingDeleted ==> s.action is Finish && s.after.stage is Done,
        s.event is Begun ==> s.action is Enqueue,
        s.event is Enqueued ==> s.action is SaveRun,
        s.event !is RunSaved ==> s.after.automation == s.before.automation,
        s.event matches ResumeEvent::Enqueued { outcome, at } ==> is_enqueued(
            s.before.pending.run,
            outcome,
            at,
            s.after.pending.run,
        ),
{
}

/// What each event leads to in a run by hand.
pub proof fn runs_by_hand_take_one_course(s: ManualMove)
    requires
        s.is_step(),
    ensures
        s.after.now == s.before.now,
        match s.event {
            ManualEvent::Begun => match uuid_of(s.before.invocation_id@) {
                None => s.action matches ManualAction::Fail(e) && e@
                    == "Invalid manual run invocation id '"@ + s.before.invocation_id@ + "'"@,
                Some(invocation) => (s.action matches ManualAction::LoadRun { run_id } && run_id@
                    == "manual_"@ + invocation) && (
                s.after.stage matches ManualStage::LookingUp { pending } && is_manual_record(
                    pending,
                    s.before.automation.id@,
                    invocation,
                    s.before.now,
                )),
            },
            ManualEvent::RunLoaded(found) => s.before.stage matches ManualStage::LookingUp {
                pending,
            } && (s.action matches ManualAction::LoadPending { run_id } && run_id@
                == pending.run.id@) && match found {
                Some(run) => s.after.stage == (ManualStage::Checking { run }),
                None => s.after.stage == (ManualStage::Resuming { pending }),
            },
            ManualEvent::PendingLoaded(found) => match s.before.stage {
                ManualStage::Checking { run } => if found is Some {
                    s.action is SaveAutomation && s.after.automation == after_manual(
                        s.before.automation,
                        run,
                        s.before.now,
                    )
                } else {
                    s.action == ManualAction::Finish(run) && s.after.automation
                        == s.before.automation
                },
                _ => if found is Some {
                    s.action is Enqueue && s.after.stage == (ManualStage::Enqueueing {
                        pending: found->Some_0,
                    })
                } else {
                    s.action is SavePending && (
                    s.before.stage matches ManualStage::Resuming { pending } && s.after.stage == (
                    ManualStage::SavingPending { pending }))
                },
            },
            ManualEvent::PendingSaved => s.action is Enqueue && (
            s.before.stage matches ManualStage::SavingPending { pending } && s.after.stage == (
            ManualStage::Enqueueing { pending })),
            ManualEvent::Enqueued { outcome, at } => s.action is SaveRun && (s.before.stage
                matches ManualStage::Enqueueing { pending } && (s.after.stage
                matches ManualStage::SavingRun { run } && is_enqueued(
                pending.run,
                outcome,
                at,
                run,
            ))),
            ManualEvent::RunSaved { at } => s.action is SaveAutomation && (s.before.stage
                matches ManualStage::SavingRun { run } && s.after.automation == after_manual(
                s.before.automation,
                run,
                at,
            )),
            ManualEvent::AutomationSaved => s.before.stage matches ManualStage::SavingAutomation {
                run,
            } && (s.action matches ManualAction::DeletePending { run_id } && run_id@ == run.id@),
            ManualEvent::PendingDeleted => s.before.stage matches ManualStage::Deleting { run }
                && s.action == ManualAction::Finish(run),
        },
{
}

// Reconciling ----------------------------------------------------------------
/// What is told of a task is what its record holds.
pub proof fn progress_is_the_tasks_own(p: TaskProgress, task: TaskRecord)
    requires
        is_progress_of(p, task),
    ensures
        p.status == task.status,
        p.started_at == task.started_at,
        p.ended_at == task.ended_at,
        same_words(p.thread_id, task.thread_id),
        same_words(p.turn_id, task.turn_id),
        same_words(p.error, task.error),
{
}

/// A run that has not ended takes over the status and the links of its task. While the task waits
/// or works, the run keeps its end and its error; once the task works, the run has begun, at the
/// time it already has, else at the task's, else now. When the task ends, the run ends with it:
/// a completed run has no error, a failed one its task's, a canceled one its own.
pub proof fn open_runs_follow_their_task(
    run: AutomationRunRecord,
    task: TaskProgress,
    now: Timestamp,
    new: AutomationRunRecord,
    changed: bool,
)
    requires
        follows_task(run, task, now, new, changed),
    ensures
        is_same_status(new.status, task.status),
        same_words(new.thread_id, task.thread_id),
        same_words(new.turn_id, task.turn_id),
        new.id == run.id && new.automation_id == run.automation_id && new.task_id == run.task_id,
        new.scheduled_for == run.scheduled_for && new.created_at == run.created_at,
        task.status is Queued || task.status is Running ==> new.ended_at == run.ended_at
            && new.error == run.error,
        task.status is Queued ==> new.started_at == run.started_at,
        task.status is Running ==> match (run.started_at, task.started_at) {
            (Some(t), _) => new.started_at == Some(t),
            (None, Some(t)) => new.started_at == Some(t),
            (None, None) => new.started_at == Some(now),
        },
        task.status is Completed || task.status is Failed || task.status is Canceled ==> {
            &&& changed
            &&& new.ended_at == (if task.ended_at is Some {
                task.ended_at
            } else {
                Some(now)
            })
            &&& new.started_at == (if run.started_at is Some {
                run.started_at
            } else {
                task.started_at
            })
        },
        task.status is Completed ==> new.error is None,
        task.status is Failed ==> same_words(new.error, task.error),
        task.status is Canceled ==> same_words(new.error, run.error),
        !changed ==> new.status == run.status && new.started_at == run.started_at && new.ended_at
            == run.ended_at && same_words(new.error, run.error) && same_words(
            new.thread_id,
            run.thread_id,
        ) && same_words(new.turn_id, run.turn_id),
        changed && (task.status is Queued || task.status is Running) ==> !(new.status == run.status
            && new.started_at == run.started_at && same_words(new.thread_id, run.thread_id)
            && same_words(new.turn_id, run.turn_id)),
{
}

/// A run that has ended keeps its outcome; only an unknown end is set, to now. A run without a
/// known task stays as it is.
pub proof fn ended_runs_keep_their_outcome(seen: ObservedRun, now: Timestamp, step: RunStep)
    requires
        is_step(seen, now, step),
    ensures
        seen.run.status is Completed || seen.run.status is Failed || seen.run.status is Canceled
            ==> {
            &&& step.run == (AutomationRunRecord { ended_at: step.run.ended_at, ..seen.run })
            &&& seen.run.ended_at is Some ==> step.run.ended_at == seen.run.ended_at && !step.saved
            &&& seen.run.ended_at is None ==> step.run.ended_at == Some(now) && step.saved
            &&& step.terminal_at == step.run.ended_at
        },
        (seen.run.status is Queued || seen.run.status is Running) && (seen.task is None
            || seen.run.task_id is None) ==> step.run == seen.run && !step.saved
            && step.terminal_at is None,
        (seen.run.status is Queued || seen.run.status is Running) && seen.run.task_id is Some ==> (
        seen.task matches Some(task) ==> {
            &&& follows_task(seen.run, task, now, step.run, step.saved)
            &&& task.status is Queued || task.status is Running ==> step.terminal_at is None
            &&& task.status is Completed || task.status is Failed || task.status is Canceled
                ==> step.terminal_at == step.run.ended_at
        }),
{
}

/// What has to be stored is just the runs that changed, in their order.
pub proof fn only_changed_runs_are_stored(steps: Seq<RunStep>, record: AutomationRunRecord)
    ensures
        records_to_save(steps).contains(record) <==> exists|i: int|
            0 <= i < steps.len() && (#[trigger] steps[i]).saved && steps[i].run == record,
        records_to_save(steps).len() <= steps.len(),
        (forall|i: int| 0 <= i < steps.len() ==> (#[trigger] steps[i]).saved)
            ==> records_to_save(steps) == Seq::new(steps.len(), |i: int| steps[i].run),
    decreases steps.len(),
{
    if steps.len() > 0 {
        let init = steps.drop_last();
        let before = records_to_save(init);
        only_changed_runs_are_stored(init, record);
        let n = steps.len() - 1;
        if records_to_save(steps).contains(record) {
            if before.contains(record) {
                let i = choose|i: int|
                    0 <= i < init.len() && (#[trigger] init[i]).saved && init[i].run == record;
                assert(steps[i].saved && steps[i].run == record);
            } else {
                assert(steps[n].saved && steps[n].run == record);
            }
        }
        if exists|i: int|
            0 <= i < steps.len() && (#[trigger] steps[i]).saved && steps[i].run == record {
            let i = choose|i: int|
                0 <= i < steps.len() && (#[trigger] steps[i]).saved && steps[i].run == record;
            if i < n {
                assert(init[i].saved && init[i].run == record);
                let j = choose|j: int| 0 <= j < before.len() && before[j] == record;
                assert(records_to_save(steps)[j] == record);
            } else {
                assert(records_to_save(steps)[before.len() as int] == record);
            }
        }
        if forall|i: int| 0 <= i < steps.len() ==> (#[trigger] steps[i]).saved {
            assert forall|i: int| 0 <= i < init.len() implies (#[trigger] init[i]).saved by {
                assert(steps[i].saved);
            }
            assert(steps[n].saved);
            assert(records_to_save(steps) =~= Seq::new(steps.len(), |i: int| steps[i].run));
        }
    } else {
        assert(records_to_save(steps) =~= Seq::new(steps.len(), |i: int| steps[i].run));
    }
}

/// The end of the last run is one of the ends, or what was known before, and no end comes after it.
pub proof fn the_latest_end_is_an_end(latest: Option<Timestamp>, steps: Seq<RunStep>)
    ensures
        latest_end(latest, steps) == latest || exists|i: int|
            0 <= i < steps.len() && (#[trigger] steps[i]).terminal_at == latest_end(latest, steps),
        forall|i: int|
            0 <= i < steps.len() ==> ((#[trigger] steps[i]).terminal_at matches Some(t) ==> (
            latest_end(latest, steps) matches Some(l) && (t.secs < l.secs || (t.secs == l.secs
                && t.nanos <= l.nanos)))),
        latest matches Some(t) ==> (latest_end(latest, steps) matches Some(l) && (t.secs < l.secs
            || (t.secs == l.secs && t.nanos <= l.nanos))),
    decreases steps.len(),
{
    if steps.len() > 0 {
        let init = steps.drop_last();
        let before = latest_end(latest, init);
        the_latest_end_is_an_end(latest, init);
        let n = steps.len() - 1;
        let all = latest_end(latest, steps);
        if all == before {
            if before != latest {
                let i = choose|i: int|
                    0 <= i < init.len() && (#[trigger] init[i]).terminal_at == before;
                assert(steps[i].terminal_at == all);
            }
        } else {
            assert(steps[n].terminal_at == all);
        }
        assert forall|i: int| 0 <= i < steps.len() implies ((
        #[trigger] steps[i]).terminal_at matches Some(t) ==> (all matches Some(l) && (t.secs
            < l.secs || (t.secs == l.secs && t.nanos <= l.nanos)))) by {
            if i < n {
                assert(init[i] == steps[i]);
            }
        }
    }
}

/// A plan has one step for each run that was looked at, stores what they say, and moves the last
/// end on.
pub proof fn plans_hold_a_step_for_each_run(
    seen: Seq<ObservedRun>,
    now: Timestamp,
    latest: Option<Timestamp>,
    plan: ReconcilePlan,
)
    requires
        is_plan(seen, now, latest, plan),
    ensures
        exists|steps: Seq<RunStep>|
            {
                &&& steps.len() == seen.len()
                &&& forall|i: int| 0 <= i < seen.len() ==> is_step(seen[i], now, #[trigger] steps[i])
                &&& plan.saves@ == #[trigger] records_to_save(steps)
                &&& plan.latest_terminal_at == latest_end(latest, steps)
            },
{
    let steps = choose|steps: Seq<RunStep>| #[trigger]
        are_steps(steps, seen, now) && plan.saves@ == records_to_save(steps)
            && plan.latest_terminal_at == latest_end(latest, steps);
    assert(plan.saves@ == records_to_save(steps));
}

// The course of a tick -----------------------------------------------------------
/// What follows each event of a tick. A slot whose run is missing gets a journal record, one whose
/// run is stored for another time, or cannot be read, ends the tick as it stands.
pub proof fn ticks_take_one_course(zone: Zone, s: TickStep)
    requires
        s.is_step(zone),
    ensures
        s.after.now == s.before.now,
        s.event == TickEvent::RunLoaded(SlotLookup::Missing) ==> s.action is SavePending && (
        s.before.stage matches TickStage::LookingUp { due_at } && (
        s.after.stage matches TickStage::SavingPending { due_at: d, pending } && d == due_at
            && is_slot_record(pending, s.before.automation.id@, due_at, s.before.now))),
        s.event == TickEvent::RunLoaded(SlotLookup::Invalid) ==> s.action is Finish
            && s.after.automation == s.before.automation,
        s.event matches TickEvent::RunLoaded(SlotLookup::Found(at)) ==> (
        s.before.stage matches TickStage::LookingUp { due_at } && (at != due_at ==> s.action
            is Finish && s.after.automation == s.before.automation) && (at == due_at ==> s.action
            is SaveAutomation || s.action is Fail)),
        s.event is PendingSaved ==> s.action is Enqueue,
        s.event is Enqueued ==> s.action is SaveRun,
        s.event is RunSaved ==> s.action is SaveAutomation || s.action is Fail,
        s.event is PendingDeleted ==> s.action is Finish,
        s.event is AutomationSaved && s.before.stage is SavingAdvanced ==> s.action
            is DeletePending,
        s.event is AutomationSaved && s.before.stage is SavingLast ==> s.action is Finish,
        s.event is Begun && s.before.automation.status is Paused ==> s.action is Finish,
        s.action is Fail ==> s.after.automation == s.before.automation,
{
}

/// A tick fails only where the rule is refused, or where it has no slot to offer.
pub proof fn ticks_fail_for_cause(zone: Zone, s: TickStep, e: Failure)
    requires
        s.is_step(zone),
        s.action == TickAction::Fail(e),
    ensures
        ({
            let rrule = s.before.automation.rrule@;
            ||| exists|why: ScheduleError| #[trigger]
                rrule_meaning(rrule, Err(why)) && e@ == why.text()
            ||| exists|schedule: AutomationSchedule, at: Timestamp, why: ScheduleError|
                rrule_meaning(rrule, Ok(schedule)) && #[trigger] next_slot(
                    zone,
                    schedule,
                    at,
                    Err(why),
                ) && e@ == why.text()
            ||| exists|schedule: AutomationSchedule, at: Timestamp, why: ScheduleError|
                rrule_meaning(rrule, Ok(schedule)) && #[trigger] latest_due(
                    zone,
                    schedule,
                    at,
                    s.before.now,
                    Err(why),
                ) && e@ == why.text()
            ||| e@ == ScheduleError::OutOfRange.text()
        }),
{
    let t = s.before;
    match s.event {
        TickEvent::Begun => match t.automation.next_run_at {
            None => {
                lemma_not_advanced(zone, t, t.now, TickStage::SavingLast, s.after, e);
            },
            Some(cursor) => {
                let first = choose|first: Result<Timestamp, Seq<char>>| #[trigger]
                    rule_cursor(t.automation.rrule@, cursor, first) && match first {
                        Err(words) => tick_fails(t, words, s.after, s.action),
                        Ok(at) => if at == cursor {
                            tick_proceeds(zone, t, at, s.after, s.action)
                        } else {
                            tick_moves_cursor(t, at, s.after, s.action)
                                && s.after.stage is SavingCursor
                        },
                    };
                if first is Err {
                    let parsed = choose|parsed: Result<AutomationSchedule, ScheduleError>| #[trigger]
                        rrule_meaning(t.automation.rrule@, parsed) && match parsed {
                            Err(why) => first == Err::<Timestamp, _>(why.text()),
                            Ok(schedule) => first == match normalized_cursor(schedule, cursor) {
                                Some(x) => Ok::<Timestamp, Seq<char>>(x),
                                None => Err(ScheduleError::OutOfRange.text()),
                            },
                        };
                    if parsed is Err {
                        assert(rrule_meaning(t.automation.rrule@, Err(parsed->Err_0)));
                    }
                } else {
                    lemma_not_proceeded(zone, t, cursor, s.after, e);
                }
            },
        },
        TickEvent::AutomationSaved => {
            lemma_not_proceeded(zone, t, t.automation.next_run_at->Some_0, s.after, e);
        },
        TickEvent::RunLoaded(found) => {
            let due_at = t.stage->LookingUp_due_at;
            lemma_not_advanced(zone, t, due_at, TickStage::SavingLast, s.after, e);
        },
        TickEvent::RunSaved => {
            let due_at = t.stage->SavingRun_due_at;
            let pending = t.stage->SavingRun_pending;
            lemma_not_advanced(zone, t, due_at, TickStage::SavingAdvanced { pending }, s.after, e);
        },
        _ => {},
    }
}

proof fn lemma_not_advanced(
    zone: Zone,
    t: SlotTick,
    due_at: Timestamp,
    stage: TickStage,
    next: SlotTick,
    e: Failure,
)
    requires
        tick_advances(zone, t, due_at, stage, next, TickAction::Fail(e)),
    ensures
        ({
            let rrule = t.automation.rrule@;
            ||| exists|why: ScheduleError| #[trigger]
                rrule_meaning(rrule, Err(why)) && e@ == why.text()
            ||| exists|schedule: AutomationSchedule, at: Timestamp, why: ScheduleError|
                rrule_meaning(rrule, Ok(schedule)) && #[trigger] next_slot(
                    zone,
                    schedule,
                    at,
                    Err(why),
                ) && e@ == why.text()
        }),
{
    let action = TickAction::Fail(e);
    let rrule = t.automation.rrule@;
    let slot = choose|slot: Result<Timestamp, Seq<char>>| #[trigger]
        planned_slot(zone, rrule, due_at, slot) && match slot {
            Err(words) => tick_fails(t, words, next, action),
            Ok(at) => tick_moves_cursor(t, at, next, action) && next.stage == stage,
        };
    let parsed = choose|parsed: Result<AutomationSchedule, ScheduleError>| #[trigger]
        rrule_meaning(rrule, parsed) && match parsed {
            Err(why) => slot == Err::<Timestamp, _>(why.text()),
            Ok(schedule) => slot_in_words(zone, schedule, due_at, slot),
        };
    match parsed {
        Err(why) => {
            assert(rrule_meaning(rrule, Err(why)));
        },
        Ok(schedule) => {
            let found = choose|found: Result<Timestamp, ScheduleError>| #[trigger]
                next_slot(zone, schedule, due_at, found) && match found {
                    Err(why) => slot == Err::<Timestamp, _>(why.text()),
                    Ok(x) => slot == Ok::<_, Seq<char>>(x),
                };
            assert(rrule_meaning(rrule, Ok(schedule)));
            assert(next_slot(zone, schedule, due_at, Err(found->Err_0)));
        },
    }
}

proof fn lemma_not_proceeded(
    zone: Zone,
    t: SlotTick,
    first: Timestamp,
    next: SlotTick,
    e: Failure,
)
    requires
        tick_proceeds(zone, t, first, next, TickAction::Fail(e)),
    ensures
        ({
            let rrule = t.automation.rrule@;
            ||| exists|why: ScheduleError| #[trigger]
                rrule_meaning(rrule, Err(why)) && e@ == why.text()
            ||| exists|schedule: AutomationSchedule, at: Timestamp, why: ScheduleError|
                rrule_meaning(rrule, Ok(schedule)) && #[trigger] latest_due(
                    zone,
                    schedule,
                    at,
                    t.now,
                    Err(why),
                ) && e@ == why.text()
        }),
{
    let action = TickAction::Fail(e);
    let rrule = t.automation.rrule@;
    let due = choose|due: Result<Timestamp, Seq<char>>| #[trigger]
        rule_latest(zone, rrule, first, t.now, due) && match due {
            Err(words) => tick_fails(t, words, next, action),
            Ok(at) => {
                &&& next.automation == t.automation && next.now == t.now
                &&& next.stage == (TickStage::LookingUp { due_at: at })
                &&& action matches TickAction::LoadRun { run_id } && run_id@
                    == crate::pending::slot_id(at)
            },
        };
    let parsed = choose|parsed: Result<AutomationSchedule, ScheduleError>| #[trigger]
        rrule_meaning(rrule, parsed) && match parsed {
            Err(why) => due == Err::<Timestamp, _>(why.text()),
            Ok(schedule) => latest_in_words(zone, schedule, first, t.now, due),
        };
    match parsed {
        Err(why) => {
            assert(rrule_meaning(rrule, Err(why)));
        },
        Ok(schedule) => {
            let found = choose|found: Result<Timestamp, ScheduleError>| #[trigger]
                latest_due(zone, schedule, first, t.now, found) && match found {
                    Err(why) => due == Err::<Timestamp, _>(why.text()),
                    Ok(x) => due == Ok::<_, Seq<char>>(x),
                };
            assert(rrule_meaning(rrule, Ok(schedule)));
            assert(latest_due(zone, schedule, first, t.now, Err(found->Err_0)));
        },
    }
}

/// Ticks are never closer together than five seconds.
pub proof fn ticks_are_seconds_apart()
    ensures
        MIN_TICK_INTERVAL_SECS == 5,
{
}

} // verus!
