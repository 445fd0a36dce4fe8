//! What holds when a tick breaks off and what it left behind is taken up again.
use vstd::prelude::*;
use vstd::string::*;

use crate::automation::AutomationRecord;
use crate::enqueue::QueuedTask;
use crate::failure::Failure;
use crate::journal_laws::{
    is_resumption, recovered_automations_run_later, resumed_journals_go_last,
    resumed_runs_keep_their_key, ResumeMove,
};
use crate::pending::{slot_id, PendingEnqueueRecord};
use crate::resumption::{
    is_recovery, is_taken_up, is_trusted, Recovery, RecoveryRound, ResumeAction, ResumeEvent,
    Resumption,
};
use crate::schedule::Zone;
use crate::schedule_laws::{plausible, steady, whole_minutes};
use crate::scheduler::{TickAction, TickStage};
use crate::scheduler_laws::{is_course, tasks_follow_their_journal, TickStep};
use crate::task::{NewTaskRequest, TaskManagerConfig, TaskRecord};
use crate::task_recovery::{has_task, ids_differ};
use crate::task_store::{
    added, asks_for_new_task, existing_task, is_known_plan, is_new_task, is_random_task_id,
    is_task_plan, keys_of, new_task_or_refusal, task_under, AddPlan, ManagerModel,
};
use crate::task_store_laws::{
    adding_keeps_states_consistent, consistent, lemma_keys_have_tasks, lemma_keys_of,
};
use crate::text::{text_opt, texts};
use crate::time::Timestamp;

verus! {

/// The answer to a request reaches the run: the task that it led to, or why it led to none.
pub open spec fn is_answer(
    plan: Result<AddPlan, Failure>,
    outcome: Result<QueuedTask, String>,
) -> bool {
    match plan {
        Ok(AddPlan::Existing(id)) => outcome matches Ok(task) && task.id@ == id@,
        Ok(AddPlan::New(record)) => outcome matches Ok(task) && task.id@ == record.id@,
        Err(e) => outcome matches Err(why) && why@ == e@,
    }
}

/// What a manager knows once what was planned is stored.
pub open spec fn once_stored(m: ManagerModel, plan: Result<AddPlan, Failure>) -> ManagerModel {
    match plan {
        Ok(AddPlan::New(task)) => added(m, task),
        _ => m,
    }
}

/// The task that a plan leads to.
pub open spec fn planned_task(plan: Result<AddPlan, Failure>) -> Option<Seq<char>> {
    match plan {
        Ok(AddPlan::Existing(id)) => Some(id@),
        Ok(AddPlan::New(task)) => Some(task.id@),
        Err(_) => None,
    }
}

/// The tasks have been read back, each with its identifier and its key, and the keys made
/// anew from them.
pub open spec fn is_reopened(m: ManagerModel, again: ManagerModel) -> bool {
    &&& ids_differ(again.tasks)
    &&& keys_of(again.tasks) == Ok::<Seq<(Seq<char>, Seq<char>)>, Seq<char>>(again.keys)
    &&& forall|i: int| #![trigger m.tasks[i]] 0 <= i < m.tasks.len() ==> is_held(again.tasks, m.tasks[i])
}

/// A task with this identifier and key is among the tasks.
pub open spec fn is_held(tasks: Seq<TaskRecord>, task: TaskRecord) -> bool {
    exists|j: int|
        0 <= j < tasks.len() && (#[trigger] tasks[j]).id@ == task.id@ && text_opt(
            tasks[j].idempotency_key,
        ) == text_opt(task.idempotency_key)
}

/// Once what was planned under a key is stored, the key leads to it.
pub proof fn queued_tasks_are_found_under_their_key(
    m: ManagerModel,
    req: NewTaskRequest,
    cfg: TaskManagerConfig,
    default_workspace: Seq<char>,
    key: Seq<char>,
    now: Timestamp,
    plan: Result<AddPlan, Failure>,
)
    requires
        consistent(m),
        is_task_plan(m, req, cfg, default_workspace, Some(key), now, plan),
        plan is Ok,
    ensures
        consistent(once_stored(m, plan)),
        task_under(once_stored(m, plan).keys, key) == planned_task(plan),
{
    if asks_for_new_task(m, req, cfg, Some(key)) {
        let id = choose|id: Option<Seq<char>>| #[trigger]
            is_random_task_id(m.tasks, id) && new_task_or_refusal(
                req,
                cfg,
                default_workspace,
                Some(key),
                id,
                now,
                plan,
            );
        let task = plan->Ok_0->New_0;
        assert(is_new_task(task, req, cfg, default_workspace, Some(key), id->Some_0, now));
        adding_keeps_states_consistent(m, task);
        assert(existing_task(added(m, task), Some(key)) == Some(task.id@));
    }
}

/// A key leads to the same task when the tasks have been read back.
pub proof fn reopened_managers_keep_their_keys(
    m: ManagerModel,
    again: ManagerModel,
    key: Seq<char>,
    id: Seq<char>,
)
    requires
        consistent(m),
        task_under(m.keys, key) == Some(id),
        is_reopened(m, again),
    ensures
        task_under(again.keys, key) == Some(id),
        has_task(again.tasks, id),
{
    lemma_keys_have_tasks(m, key, id);
    let t = choose|t: TaskRecord|
        #[trigger] m.tasks.contains(t) && t.id@ == id && text_opt(t.idempotency_key) == Some(key);
    let i = choose|i: int| 0 <= i < m.tasks.len() && m.tasks[i] == t;
    assert(is_held(again.tasks, m.tasks[i]));
    let j = choose|j: int|
        0 <= j < again.tasks.len() && (#[trigger] again.tasks[j]).id@ == t.id@ && text_opt(
            again.tasks[j].idempotency_key,
        ) == text_opt(t.idempotency_key);
    lemma_keys_of(again.tasks, again.keys);
    assert(again.tasks[j].idempotency_key is Some);
}

/// A key that is known leads to its task, whatever is asked for under it: no task is added, and
/// nothing changes.
pub proof fn repeated_keys_lead_to_their_task(
    m: ManagerModel,
    req: NewTaskRequest,
    cfg: TaskManagerConfig,
    key: Seq<char>,
    id: Seq<char>,
    plan: Result<AddPlan, Failure>,
)
    requires
        consistent(m),
        task_under(m.keys, key) == Some(id),
        is_known_plan(m, req, cfg, Some(key), plan),
    ensures
        plan matches Ok(AddPlan::Existing(s)) && s@ == id,
        once_stored(m, plan) == m,
{
    lemma_keys_have_tasks(m, key, id);
    let t = choose|t: TaskRecord|
        #[trigger] m.tasks.contains(t) && t.id@ == id && text_opt(t.idempotency_key) == Some(key);
    let k = choose|k: int| 0 <= k < m.tasks.len() && m.tasks[k] == t;
    assert(m.tasks[k].id@ == id);
}

/// A tick that broke off once the task of a slot was queued, whatever it still did, leads to no
/// second task. When its journal record is taken up again, be it by the same process or after
/// the tasks were read back, the request comes upon the task that was queued. The run that is
/// then stored is the one of the slot, and holds that task.
pub proof fn broken_ticks_lead_to_one_task(
    zone: Zone,
    steps: Seq<TickStep>,
    i: int,
    m: ManagerModel,
    cfg: TaskManagerConfig,
    default_workspace: Seq<char>,
    now: Timestamp,
    plan: Result<AddPlan, Failure>,
    again: ManagerModel,
    zone_again: Zone,
    resumed: Seq<ResumeMove>,
    cfg_again: TaskManagerConfig,
    plan_again: Result<AddPlan, Failure>,
)
    requires
        is_course(zone, steps),
        0 <= i < steps.len(),
        consistent(m),
        plan is Ok,
        steps[i].action matches TickAction::Enqueue(req) && (
        steps[i].after.stage matches TickStage::Enqueueing { pending, .. } && {
            &&& is_task_plan(
                m,
                req,
                cfg,
                default_workspace,
                Some(pending.slot_key@),
                now,
                plan,
            )
            &&& resumed.len() > 1
            &&& resumed[0].before.pending == pending
        }),
        again == once_stored(m, plan) || is_reopened(once_stored(m, plan), again),
        is_resumption(zone_again, resumed),
        resumed[0].action matches ResumeAction::Enqueue(req) && is_known_plan(
            again,
            req,
            cfg_again,
            Some(resumed[0].after.pending.slot_key@),
            plan_again,
        ),
        resumed[1].event matches ResumeEvent::Enqueued { outcome, .. } && is_answer(
            plan_again,
            outcome,
        ),
    ensures
        plan_again matches Ok(AddPlan::Existing(id)) && planned_task(plan) == Some(id@),
        resumed[1].action is SaveRun,
        steps[i].after.stage matches TickStage::Enqueueing { due_at, .. } && {
            let run = resumed[1].after.pending.run;
            &&& run.id@ == slot_id(due_at)
            &&& run.automation_id@ == steps[i].before.automation.id@
            &&& run.scheduled_for == due_at
            &&& text_opt(run.task_id) == planned_task(plan)
        },
{
    assert(steps[i].is_step(zone));
    tasks_follow_their_journal(zone, steps, i);
    let pending = steps[i].after.stage->Enqueueing_pending;
    let req = steps[i].action->Enqueue_0;
    let key = pending.slot_key@;
    queued_tasks_are_found_under_their_key(m, req, cfg, default_workspace, key, now, plan);
    let stored = once_stored(m, plan);
    let id = planned_task(plan)->Some_0;
    if again == stored {
        repeated_keys_lead_to_their_task(
            stored,
            resumed[0].action->Enqueue_0,
            cfg_again,
            key,
            id,
            plan_again,
        );
    } else {
        reopened_managers_keep_their_keys(stored, again, key, id);
    }
    assert(resumed[0].is_step(zone_again));
    assert(resumed[1].is_step(zone_again));
    assert(resumed[1].before == resumed[0].after);
    assert(existing_task(again, Some(key)) == Some(id));
}

/// By the time the journal record of a slot that was taken up again is deleted, the automation
/// was stored with its next run ahead. Holds under the conditions under which a schedule moves
/// on to a time ahead.
pub proof fn resumed_slots_lie_behind(zone: Zone, resumed: Seq<ResumeMove>, k: int)
    requires
        plausible(zone),
        steady(zone),
        whole_minutes(zone),
        is_resumption(zone, resumed),
        0 <= k < resumed.len(),
        resumed[k].action is DeletePending,
        resumed[0].before.wf(),
        resumed[0].before.pending.kind is Scheduled,
        resumed[0].before.automation.status is Active,
        resumed[0].before.pending.run.scheduled_for.secs as int % 60 == 0,
        resumed[0].before.pending.run.scheduled_for.nanos == 0,
    ensures
        k == 3,
        resumed[k].after.automation.next_run_at matches Some(t) && resumed[0].before.now.before(t),
        resumed[k].after.pending.run.id == resumed[0].before.pending.run.id,
        resumed[k].after.recovered,
{
    resumed_journals_go_last(zone, resumed, k);
    assert(resumed[0].is_step(zone) && resumed[1].is_step(zone) && resumed[2].is_step(zone));
    assert(resumed[1].before == resumed[0].after);
    assert(resumed[2].before == resumed[1].after);
    resumed_runs_keep_their_key(zone, resumed[0]);
    resumed_runs_keep_their_key(zone, resumed[1]);
    let s = resumed[2].before;
    let (record, r) = choose|record: AutomationRecord, r: Result<Recovery, Failure>| #[trigger]
        is_recovery(zone, s.automation, s.pending.kind, s.pending.run, s.now, record, r) && {
            &&& resumed[2].after == (Resumption {
                automation: record,
                recovered: s.recovered || r == Ok::<_, Failure>(Recovery::Recovered),
                stage: resumed[2].after.stage,
                ..s
            })
            &&& match r {
                Err(e) => resumed[2].after.stage is Done && (
                resumed[2].action matches ResumeAction::Fail(f) && f == e),
                Ok(Recovery::Untouched) => resumed[2].after.stage is Deleting
                    && resumed[2].action is DeletePending,
                Ok(_) => resumed[2].after.stage is SavingAutomation
                    && resumed[2].action is SaveAutomation,
            }
        };
    assert(resumed[2].event is RunSaved);
    recovered_automations_run_later(zone, s, record, r);
    if k == 3 {
        assert(resumed[3].is_step(zone));
        assert(resumed[3].before == resumed[2].after);
    }
}

/// A journal that cannot be trusted holds up its own automation and no other: none of its
/// records is taken up, so that all stay, the automation is left out of the tick, and what
/// becomes of another automation does not change.
pub proof fn untrusted_journals_hold_up_their_own(
    old: RecoveryRound,
    automation_id: Seq<char>,
    scan: Option<(Vec<PendingEnqueueRecord>, bool)>,
    new: RecoveryRound,
    taken: Seq<PendingEnqueueRecord>,
)
    requires
        is_taken_up(old, automation_id, scan, new, taken),
        !is_trusted(scan),
    ensures
        taken.len() == 0,
        new.left_out(automation_id),
        forall|other: Seq<char>|
            other != automation_id ==> #[trigger] new.left_out(other) == old.left_out(other),
{
    let (a, b) = (texts(old.blocked@), texts(new.blocked@));
    assert(b[a.len() as int] == automation_id);
    assert forall|other: Seq<char>| other != automation_id implies #[trigger] new.left_out(other)
        == old.left_out(other) by {
        if a.contains(other) {
            let k = choose|k: int| 0 <= k < a.len() && a[k] == other;
            assert(b[k] == other);
        }
        if b.contains(other) {
            let k = choose|k: int| 0 <= k < b.len() && b[k] == other;
            assert(a[k] == other);
        }
    }
}

} // verus!
