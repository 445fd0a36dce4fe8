//! What holds of every state of a task manager.
use vstd::prelude::*;

use crate::order::{is_sorted_from, sorting_keeps_the_items};
use crate::task::{
    is_request_for, ExecutionTask, NewTaskRequest, TaskManagerConfig, TaskRecord,
};
use crate::task_events::{is_cancel, is_started, CancelEffect};
use crate::task_recovery::{
    has_queued, has_task, id_order, ids_differ, is_rebuilt_queue, the_queue_holds_what_waits,
};
use crate::task_store::{
    added, canceled, existing_task, finished, forgot, is_new_task, keys_of, lemma_task_index,
    other_key, other_task, other_than, prunable_ids, replaced, started, task_index, task_of, task_under, with_task, without_id, ManagerModel,
};
use crate::text::text_opt;
use crate::time::Timestamp;

verus! {

/// Every key leads to the one task that was queued under it.
pub open spec fn keys_agree(m: ManagerModel) -> bool {
    &&& forall|i: int|
        0 <= i < m.tasks.len() && (#[trigger] m.tasks[i]).idempotency_key is Some ==> task_under(
            m.keys,
            m.tasks[i].idempotency_key->Some_0@,
        ) == Some(m.tasks[i].id@)
    &&& forall|key: Seq<char>| #[trigger]
        task_under(m.keys, key) matches Some(id) ==> (task_of(m.tasks, id) matches Some(task)
            && text_opt(task.idempotency_key) == Some(key))
}

/// A consistent state: no identifier stands twice, every task that waits is in the
/// queue, and keys and tasks agree.
pub open spec fn consistent(m: ManagerModel) -> bool {
    &&& ids_differ(m.tasks)
    &&& forall|id: Seq<char>| #[trigger] has_queued(m.tasks, id) ==> m.queue.contains(id)
    &&& keys_agree(m)
}

proof fn lemma_task_at(tasks: Seq<TaskRecord>, i: int)
    requires
        ids_differ(tasks),
        0 <= i < tasks.len(),
    ensures
        task_index(tasks, tasks[i].id@) == i,
        task_of(tasks, tasks[i].id@) == Some(tasks[i]),
{
    lemma_task_index(tasks, tasks[i].id@);
    let k = task_index(tasks, tasks[i].id@);
    if k < i {
        assert(tasks[k].id@ != tasks[i].id@);
    } else if k > i {
        assert(tasks[i].id@ != tasks[i].id@);
    }
}

proof fn lemma_with_task(tasks: Seq<TaskRecord>, record: TaskRecord)
    requires
        ids_differ(tasks),
    ensures
        ids_differ(with_task(tasks, record)),
        task_of(with_task(tasks, record), record.id@) == Some(record),
        forall|id: Seq<char>|
            id != record.id@ ==> #[trigger] task_of(with_task(tasks, record), id) == task_of(tasks, id),
        forall|id: Seq<char>| #[trigger]
            has_queued(with_task(tasks, record), id) <==> if id == record.id@ {
                record.status is Queued
            } else {
                has_queued(tasks, id)
            },
        forall|i: int|
            0 <= i < with_task(tasks, record).len() ==> #[trigger] with_task(tasks, record)[i]
                == record || (tasks.contains(with_task(tasks, record)[i]) && with_task(tasks, record)[i].id@
                != record.id@),
{
    let id = record.id@;
    let new = with_task(tasks, record);
    let k = task_index(tasks, id);
    lemma_task_index(tasks, id);
    assert(new.len() == if k < tasks.len() {
        tasks.len()
    } else {
        tasks.len() + 1
    });
    assert forall|i: int| 0 <= i < new.len() && i != k implies #[trigger] new[i] == tasks[i] && i
        < tasks.len() && new[i].id@ != id by {
        if k < tasks.len() && tasks[i].id@ == id {
            if i < k {
                assert(tasks[i].id@ != tasks[k].id@);
            } else {
                assert(tasks[k].id@ != tasks[i].id@);
            }
        }
    }
    assert(new[k] == record);
    assert forall|i: int, j: int| 0 <= i < j < new.len() implies (#[trigger] new[i]).id@ != (
    #[trigger] new[j]).id@ by {
        if i != k && j != k {
            assert(tasks[i].id@ != tasks[j].id@);
        }
    }
    lemma_task_at(new, k);
    assert forall|other: Seq<char>| other != id implies #[trigger] task_of(new, other) == task_of(
        tasks,
        other,
    ) by {
        lemma_task_index(tasks, other);
        lemma_task_index(new, other);
        let a = task_index(tasks, other);
        let b = task_index(new, other);
        if a < tasks.len() {
            assert(a != k);
            assert(new[a] == tasks[a]);
            lemma_task_at(new, a);
        } else if b < new.len() {
            assert(b != k);
            assert(tasks[b].id@ == other);
        }
    }
    assert forall|other: Seq<char>| #[trigger]
        has_queued(new, other) <==> if other == id {
            record.status is Queued
        } else {
            has_queued(tasks, other)
        } by {
        if has_queued(new, other) {
            let i = choose|i: int|
                0 <= i < new.len() && (#[trigger] new[i]).id@ == other && new[i].status is Queued;
            if i != k {
                assert(tasks[i].id@ == other);
            }
        }
        if other == id {
            if record.status is Queued {
                assert(new[k].id@ == other);
            }
        } else if has_queued(tasks, other) {
            let i = choose|i: int|
                0 <= i < tasks.len() && (#[trigger] tasks[i]).id@ == other && tasks[i].status is Queued;
            assert(i != k);
            assert(new[i] == tasks[i]);
        }
    }
    assert forall|i: int| 0 <= i < new.len() implies #[trigger] new[i] == record || (tasks.contains(
        new[i],
    ) && new[i].id@ != id) by {
        if i != k {
            assert(tasks[i] == new[i]);
        }
    }
}

proof fn lemma_without_id(list: Seq<Seq<char>>, id: Seq<char>)
    ensures
        forall|x: Seq<char>| #[trigger]
            without_id(list, id).contains(x) <==> list.contains(x) && x != id,
{
    let keep = other_than(id);
    let out = without_id(list, id);
    assert forall|x: Seq<char>| #[trigger] out.contains(x) <==> list.contains(x) && x != id by {
        if out.contains(x) {
            list.lemma_filter_contains_rev(keep, x);
            let k = choose|k: int| 0 <= k < out.len() && out[k] == x;
            list.lemma_filter_pred(keep, k);
        }
        if list.contains(x) && x != id {
            let k = choose|k: int| 0 <= k < list.len() && list[k] == x;
            list.lemma_filter_contains(keep, k);
        }
    }
}

proof fn lemma_task_under_push(
    keys: Seq<(Seq<char>, Seq<char>)>,
    entry: (Seq<char>, Seq<char>),
    key: Seq<char>,
)
    ensures
        task_under(keys.push(entry), key) == match task_under(keys, key) {
            Some(id) => Some(id),
            None => if entry.0 == key {
                Some(entry.1)
            } else {
                None
            },
        },
    decreases keys.len(),
{
    if keys.len() == 0 {
        assert(keys.push(entry).drop_first() =~= Seq::empty());
        assert(task_under(Seq::<(Seq<char>, Seq<char>)>::empty(), key) is None);
    } else {
        assert(keys.push(entry).drop_first() =~= keys.drop_first().push(entry));
        lemma_task_under_push(keys.drop_first(), entry, key);
    }
}

/// Storing a new task keeps the state consistent, and puts the task in the queue.
pub proof fn adding_keeps_states_consistent(m: ManagerModel, task: TaskRecord)
    requires
        consistent(m),
        !has_task(m.tasks, task.id@),
        task.status is Queued,
        existing_task(m, text_opt(task.idempotency_key)) is None,
    ensures
        consistent(added(m, task)),
        added(m, task).queue.contains(task.id@),
        task_of(added(m, task).tasks, task.id@) == Some(task),
        existing_task(added(m, task), text_opt(task.idempotency_key))
            == if task.idempotency_key is Some {
            Some(task.id@)
        } else {
            None
        },
{
    let new = added(m, task);
    lemma_with_task(m.tasks, task);
    lemma_task_index(m.tasks, task.id@);
    assert(new.queue[m.queue.len() as int] == task.id@);
    assert forall|id: Seq<char>| #[trigger] has_queued(new.tasks, id) implies new.queue.contains(id) by {
        if id != task.id@ {
            assert(m.queue.contains(id));
            let k = choose|k: int| 0 <= k < m.queue.len() && m.queue[k] == id;
            assert(new.queue[k] == id);
        }
    }
    if let Some(key) = text_opt(task.idempotency_key) {
        lemma_task_under_push(m.keys, (key, task.id@), key);
    }
    assert forall|i: int|
        0 <= i < new.tasks.len() && (#[trigger] new.tasks[i]).idempotency_key is Some implies task_under(
        new.keys,
        new.tasks[i].idempotency_key->Some_0@,
    ) == Some(new.tasks[i].id@) by {
        let own = new.tasks[i].idempotency_key->Some_0@;
        if let Some(key) = text_opt(task.idempotency_key) {
            lemma_task_under_push(m.keys, (key, task.id@), own);
        }
        if new.tasks[i] != task {
            let j = choose|j: int| 0 <= j < m.tasks.len() && m.tasks[j] == new.tasks[i];
            assert(m.tasks[j].idempotency_key is Some);
        }
    }
    assert forall|key: Seq<char>| #[trigger]
        task_under(new.keys, key) is Some implies (task_of(
        new.tasks,
        task_under(new.keys, key)->Some_0,
    ) matches Some(t) && text_opt(t.idempotency_key) == Some(key)) by {
        let id = task_under(new.keys, key)->Some_0;
        if let Some(own) = text_opt(task.idempotency_key) {
            lemma_task_under_push(m.keys, (own, task.id@), key);
        }
        if task_under(m.keys, key) is Some {
            assert(task_under(m.keys, key) == Some(id));
            assert(task_of(m.tasks, id) is Some);
            lemma_task_index(m.tasks, id);
            assert(id != task.id@);
        }
    }
}

proof fn lemma_replacing_keeps_keys(m: ManagerModel, old: TaskRecord, task: TaskRecord)
    requires
        consistent(m),
        task_of(m.tasks, task.id@) == Some(old),
        text_opt(task.idempotency_key) == text_opt(old.idempotency_key),
    ensures
        keys_agree(replaced(m, task)),
{
    let new = replaced(m, task);
    lemma_with_task(m.tasks, task);
    lemma_task_index(m.tasks, task.id@);
    let k = task_index(m.tasks, task.id@);
    assert(m.tasks[k] == old);
    assert forall|i: int|
        0 <= i < new.tasks.len() && (#[trigger] new.tasks[i]).idempotency_key is Some implies task_under(
        new.keys,
        new.tasks[i].idempotency_key->Some_0@,
    ) == Some(new.tasks[i].id@) by {
        if new.tasks[i] != task {
            let j = choose|j: int| 0 <= j < m.tasks.len() && m.tasks[j] == new.tasks[i];
            assert(m.tasks[j].idempotency_key is Some);
        } else {
            assert(m.tasks[k].idempotency_key is Some);
        }
    }
}

/// Storing a record in place of another keeps the state consistent, as long as the
/// record keeps the key and makes no task wait that did not.
pub proof fn replacing_keeps_states_consistent(m: ManagerModel, old: TaskRecord, task: TaskRecord)
    requires
        consistent(m),
        task_of(m.tasks, task.id@) == Some(old),
        text_opt(task.idempotency_key) == text_opt(old.idempotency_key),
        task.status is Queued ==> old.status is Queued,
    ensures
        consistent(replaced(m, task)),
{
    let new = replaced(m, task);
    lemma_with_task(m.tasks, task);
    lemma_replacing_keeps_keys(m, old, task);
    lemma_task_index(m.tasks, task.id@);
    let k = task_index(m.tasks, task.id@);
    assert forall|id: Seq<char>| #[trigger] has_queued(new.tasks, id) implies new.queue.contains(id) by {
        if id == task.id@ {
            assert(m.tasks[k].id@ == id && m.tasks[k].status is Queued);
            assert(has_queued(m.tasks, id));
        }
    }
}

/// Starting the task at the head of the queue keeps the state consistent.
pub proof fn starting_keeps_states_consistent(
    m: ManagerModel,
    old: TaskRecord,
    now: crate::time::Timestamp,
    task: TaskRecord,
)
    requires
        consistent(m),
        m.queue.len() > 0,
        m.queue[0] == old.id@,
        task_of(m.tasks, old.id@) == Some(old),
        is_started(old, now, task),
    ensures
        consistent(started(m, task)),
        started(m, task).running.contains(task.id@),
{
    let new = started(m, task);
    lemma_with_task(m.tasks, task);
    lemma_replacing_keeps_keys(m, old, task);
    assert(new.tasks == replaced(m, task).tasks && new.keys == replaced(m, task).keys);
    let kept = without_id(m.running, task.id@);
    assert(new.running[kept.len() as int] == task.id@);
    assert forall|id: Seq<char>| #[trigger] has_queued(new.tasks, id) implies new.queue.contains(id) by {
        assert(id != task.id@);
        assert(m.queue.contains(id));
        let k = choose|k: int| 0 <= k < m.queue.len() && m.queue[k] == id;
        assert(new.queue[k - 1] == id);
    }
}

/// Canceling a task keeps the state consistent; a task that waited leaves the queue.
pub proof fn canceling_keeps_states_consistent(
    m: ManagerModel,
    old: TaskRecord,
    now: crate::time::Timestamp,
    task: TaskRecord,
    effect: CancelEffect,
)
    requires
        consistent(m),
        task_of(m.tasks, old.id@) == Some(old),
        is_cancel(old, now, task, effect),
    ensures
        consistent(canceled(m, task, effect)),
        effect is LeaveQueue ==> !canceled(m, task, effect).queue.contains(task.id@),
{
    lemma_without_id(m.queue, task.id@);
    match effect {
        CancelEffect::LeaveQueue => {
            let new = canceled(m, task, effect);
            lemma_with_task(m.tasks, task);
            lemma_replacing_keeps_keys(m, old, task);
            assert(new.tasks == replaced(m, task).tasks && new.keys == replaced(m, task).keys);
            assert forall|id: Seq<char>| #[trigger]
                has_queued(new.tasks, id) implies new.queue.contains(id) by {
                assert(id != task.id@);
                assert(m.queue.contains(id));
            }
        },
        CancelEffect::Signal => {
            replacing_keeps_states_consistent(m, old, task);
        },
        CancelEffect::Nothing => {},
    }
}

/// Ending a task keeps the state consistent, and the task runs no more.
pub proof fn finishing_keeps_states_consistent(m: ManagerModel, old: TaskRecord, task: TaskRecord)
    requires
        consistent(m),
        task_of(m.tasks, task.id@) == Some(old),
        text_opt(task.idempotency_key) == text_opt(old.idempotency_key),
        task.status.terminal(),
    ensures
        consistent(finished(m, task)),
        !finished(m, task).running.contains(task.id@),
{
    let new = finished(m, task);
    replacing_keeps_states_consistent(m, old, task);
    lemma_without_id(m.running, task.id@);
    assert(new.tasks == replaced(m, task).tasks && new.keys == replaced(m, task).keys);
    assert forall|id: Seq<char>| #[trigger] has_queued(new.tasks, id) implies new.queue.contains(id) by {
        assert(has_queued(replaced(m, task).tasks, id));
    }
}

proof fn lemma_task_under_filter(
    keys: Seq<(Seq<char>, Seq<char>)>,
    id: Seq<char>,
    key: Seq<char>,
)
    ensures
        ({
            let left = keys.filter(other_key(id));
            task_under(keys, key) matches Some(other) ==> other != id ==> task_under(left, key)
                == Some(other)
        }),
        task_under(keys.filter(other_key(id)), key) matches Some(other)
            ==> other != id && keys.contains((key, other)),
    decreases keys.len(),
{
    let keep = other_key(id);
    reveal(Seq::filter);
    let left = keys.filter(keep);
    if keys.len() > 0 {
        let rest = keys.drop_first();
        lemma_task_under_filter(rest, id, key);
        lemma_filter_first(keys, keep);
        let tail = rest.filter(keep);
        if keep(keys[0]) {
            assert(left == seq![keys[0]] + tail);
            assert(left.drop_first() =~= tail);
        }
        if let Some(other) = task_under(left, key) {
            if keep(keys[0]) && keys[0].0 == key {
                assert(keys[0] == (key, other));
            } else {
                assert(task_under(tail, key) == Some(other));
                assert(rest.contains((key, other)));
                let k = choose|k: int| 0 <= k < rest.len() && rest[k] == (key, other);
                assert(keys[k + 1] == (key, other));
            }
        }
    } else {
        assert(left =~= Seq::empty());
    }
}

proof fn lemma_filter_first<A>(s: Seq<A>, keep: spec_fn(A) -> bool)
    requires
        s.len() > 0,
    ensures
        s.filter(keep) == if keep(s[0]) {
            seq![s[0]] + s.drop_first().filter(keep)
        } else {
            s.drop_first().filter(keep)
        },
    decreases s.len(),
{
    reveal(Seq::filter);
    if s.len() == 1 {
        assert(s.drop_last() =~= Seq::empty());
        assert(s.drop_first() =~= Seq::empty());
        assert(Seq::<A>::empty().filter(keep) =~= Seq::empty());
        if keep(s[0]) {
            assert(s.filter(keep) =~= seq![s[0]] + Seq::<A>::empty());
        }
    } else {
        lemma_filter_first(s.drop_last(), keep);
        assert(s.drop_last().drop_first() =~= s.drop_first().drop_last());
        assert(s.drop_first().last() == s.last());
        let middle = s.drop_first().drop_last().filter(keep);
        if keep(s.last()) {
            assert(s.filter(keep) == s.drop_last().filter(keep).push(s.last()));
            assert(s.drop_first().filter(keep) == middle.push(s.last()));
            if keep(s[0]) {
                assert((seq![s[0]] + middle).push(s.last()) =~= seq![s[0]] + middle.push(s.last()));
            }
        }
    }
}

proof fn lemma_filter_tasks(tasks: Seq<TaskRecord>, id: Seq<char>)
    requires
        ids_differ(tasks),
    ensures
        ({
            let left = tasks.filter(other_task(id));
            &&& ids_differ(left)
            &&& forall|t: TaskRecord| #[trigger] left.contains(t) <==> tasks.contains(t) && t.id@ != id
        }),
    decreases tasks.len(),
{
    let keep = other_task(id);
    let left = tasks.filter(keep);
    reveal(Seq::filter);
    if tasks.len() > 0 {
        let init = tasks.drop_last();
        assert(ids_differ(init)) by {
            assert forall|i: int, j: int| 0 <= i < j < init.len() implies (#[trigger] init[i]).id@ != (
            #[trigger] init[j]).id@ by {
                assert(tasks[i].id@ != tasks[j].id@);
            }
        }
        lemma_filter_tasks(init, id);
        let before = init.filter(keep);
        let last = tasks.last();
        if keep(last) {
            assert(left == before.push(last));
            assert forall|i: int, j: int| 0 <= i < j < left.len() implies (#[trigger] left[i]).id@ != (
            #[trigger] left[j]).id@ by {
                if j < before.len() {
                    assert(before[i].id@ != before[j].id@);
                } else {
                    assert(before.contains(before[i]));
                    let k = choose|k: int| 0 <= k < init.len() && init[k] == before[i];
                    assert(tasks[k].id@ != tasks[tasks.len() - 1].id@);
                }
            }
        }
        assert forall|t: TaskRecord| #[trigger] left.contains(t) <==> tasks.contains(t) && t.id@ != id by {
            if left.contains(t) {
                let k = choose|k: int| 0 <= k < left.len() && left[k] == t;
                if k < before.len() {
                    assert(before[k] == t);
                    assert(before.contains(t));
                    let j = choose|j: int| 0 <= j < init.len() && init[j] == t;
                    assert(tasks[j] == t);
                } else {
                    assert(tasks[tasks.len() - 1] == t);
                }
            }
            if tasks.contains(t) && t.id@ != id {
                let k = choose|k: int| 0 <= k < tasks.len() && tasks[k] == t;
                if k < init.len() {
                    assert(init[k] == t);
                    assert(before.contains(t));
                    let j = choose|j: int| 0 <= j < before.len() && before[j] == t;
                    assert(left[j] == t);
                } else {
                    assert(left[before.len() as int] == t);
                }
            }
        }
    } else {
        assert(left =~= Seq::empty());
    }
}

pub(crate) proof fn lemma_keys_have_tasks(m: ManagerModel, key: Seq<char>, id: Seq<char>)
    requires
        keys_agree(m),
        task_under(m.keys, key) == Some(id),
    ensures
        exists|t: TaskRecord|
            #[trigger] m.tasks.contains(t) && t.id@ == id && text_opt(t.idempotency_key) == Some(key),
{
    lemma_task_index(m.tasks, id);
    let t = task_of(m.tasks, id)->Some_0;
    assert(m.tasks[task_index(m.tasks, id)] == t);
    assert(m.tasks.contains(t));
}

/// No key stands twice.
pub open spec fn keys_are_unique(keys: Seq<(Seq<char>, Seq<char>)>) -> bool {
    forall|i: int, j: int| 0 <= i < j < keys.len() ==> (#[trigger] keys[i]).0 != (#[trigger] keys[j]).0
}

proof fn lemma_unique_key(keys: Seq<(Seq<char>, Seq<char>)>, key: Seq<char>, id: Seq<char>)
    requires
        keys_are_unique(keys),
        keys.contains((key, id)),
    ensures
        task_under(keys, key) == Some(id),
    decreases keys.len(),
{
    let k = choose|k: int| 0 <= k < keys.len() && keys[k] == (key, id);
    if k > 0 {
        assert(keys[0].0 != keys[k].0);
        let rest = keys.drop_first();
        assert(rest[k - 1] == (key, id));
        assert(keys_are_unique(rest)) by {
            assert forall|i: int, j: int| 0 <= i < j < rest.len() implies (#[trigger] rest[i]).0 != (
            #[trigger] rest[j]).0 by {
                assert(keys[i + 1].0 != keys[j + 1].0);
            }
        }
        lemma_unique_key(rest, key, id);
    }
}

/// Forgetting a task keeps the state consistent, and leaves nothing of the task.
pub proof fn forgetting_keeps_states_consistent(m: ManagerModel, id: Seq<char>)
    requires
        consistent(m),
        keys_are_unique(m.keys),
    ensures
        consistent(forgot(m, id)),
        !has_task(forgot(m, id).tasks, id),
        !forgot(m, id).queue.contains(id),
        !forgot(m, id).running.contains(id),
        forall|key: Seq<char>| #[trigger] task_under(forgot(m, id).keys, key) != Some(id),
{
    let new = forgot(m, id);
    lemma_filter_tasks(m.tasks, id);
    lemma_without_id(m.queue, id);
    lemma_without_id(m.running, id);
    if has_task(new.tasks, id) {
        let i = choose|i: int| 0 <= i < new.tasks.len() && (#[trigger] new.tasks[i]).id@ == id;
        assert(new.tasks.contains(new.tasks[i]));
    }
    assert forall|other: Seq<char>| #[trigger]
        has_queued(new.tasks, other) implies new.queue.contains(other) by {
        let i = choose|i: int|
            0 <= i < new.tasks.len() && (#[trigger] new.tasks[i]).id@ == other
                && new.tasks[i].status is Queued;
        assert(new.tasks.contains(new.tasks[i]));
        let j = choose|j: int| 0 <= j < m.tasks.len() && m.tasks[j] == new.tasks[i];
        assert(m.tasks[j].id@ == other && m.tasks[j].status is Queued);
        assert(has_queued(m.tasks, other));
    }
    assert forall|i: int|
        0 <= i < new.tasks.len() && (#[trigger] new.tasks[i]).idempotency_key is Some implies task_under(
        new.keys,
        new.tasks[i].idempotency_key->Some_0@,
    ) == Some(new.tasks[i].id@) by {
        assert(new.tasks.contains(new.tasks[i]));
        let j = choose|j: int| 0 <= j < m.tasks.len() && m.tasks[j] == new.tasks[i];
        assert(m.tasks[j].idempotency_key is Some);
        lemma_task_under_filter(m.keys, id, m.tasks[j].idempotency_key->Some_0@);
    }
    assert forall|key: Seq<char>| #[trigger]
        task_under(new.keys, key) is Some implies (task_of(
        new.tasks,
        task_under(new.keys, key)->Some_0,
    ) matches Some(t) && text_opt(t.idempotency_key) == Some(key)) by {
        let other = task_under(new.keys, key)->Some_0;
        lemma_task_under_filter(m.keys, id, key);
        lemma_unique_key(m.keys, key, other);
        lemma_keys_have_tasks(m, key, other);
        let t = choose|t: TaskRecord|
            #[trigger] m.tasks.contains(t) && t.id@ == other && text_opt(t.idempotency_key) == Some(
                key,
            );
        assert(new.tasks.contains(t));
        let i = choose|i: int| 0 <= i < new.tasks.len() && new.tasks[i] == t;
        lemma_task_at(new.tasks, i);
    }
    assert forall|key: Seq<char>| #[trigger] task_under(new.keys, key) != Some(id) by {
        lemma_task_under_filter(m.keys, id, key);
    }
}

pub(crate) proof fn lemma_keys_of(tasks: Seq<TaskRecord>, keys: Seq<(Seq<char>, Seq<char>)>)
    requires
        keys_of(tasks) == Ok::<Seq<(Seq<char>, Seq<char>)>, Seq<char>>(keys),
    ensures
        keys_are_unique(keys),
        forall|i: int|
            0 <= i < tasks.len() && (#[trigger] tasks[i]).idempotency_key is Some ==> task_under(
                keys,
                tasks[i].idempotency_key->Some_0@,
            ) == Some(tasks[i].id@),
        forall|key: Seq<char>| #[trigger]
            task_under(keys, key) matches Some(id) ==> exists|i: int|
                0 <= i < tasks.len() && (#[trigger] tasks[i]).id@ == id && text_opt(
                    tasks[i].idempotency_key,
                ) == Some(key),
    decreases tasks.len(),
{
    if tasks.len() > 0 {
        let init = tasks.drop_last();
        let before = keys_of(init)->Ok_0;
        let last = tasks.last();
        lemma_keys_of(init, before);
        if let Some(own) = text_opt(last.idempotency_key) {
            let entry = (own, last.id@);
            assert(keys == before.push(entry));
            assert forall|i: int, j: int| 0 <= i < j < keys.len() implies (#[trigger] keys[i]).0 != (
            #[trigger] keys[j]).0 by {
                if j < before.len() {
                    assert(before[i].0 != before[j].0);
                } else {
                    if before[i].0 == own {
                        assert(before.contains((own, before[i].1)));
                        lemma_unique_key(before, own, before[i].1);
                    }
                }
            }
            assert forall|i: int|
                0 <= i < tasks.len() && (#[trigger] tasks[i]).idempotency_key is Some implies task_under(
                keys,
                tasks[i].idempotency_key->Some_0@,
            ) == Some(tasks[i].id@) by {
                lemma_task_under_push(before, entry, tasks[i].idempotency_key->Some_0@);
                if i < init.len() {
                    assert(init[i] == tasks[i]);
                }
            }
            assert forall|key: Seq<char>| #[trigger]
                task_under(keys, key) is Some implies exists|i: int|
                0 <= i < tasks.len() && (#[trigger] tasks[i]).id@ == task_under(keys, key)->Some_0
                    && text_opt(tasks[i].idempotency_key) == Some(key) by {
                let id = task_under(keys, key)->Some_0;
                lemma_task_under_push(before, entry, key);
                if task_under(before, key) is Some {
                    let i = choose|i: int|
                        0 <= i < init.len() && (#[trigger] init[i]).id@ == id && text_opt(
                            init[i].idempotency_key,
                        ) == Some(key);
                    assert(tasks[i] == init[i]);
                } else {
                    assert(tasks[tasks.len() - 1] == last);
                }
            }
        } else {
            assert(keys == before);
            assert forall|i: int|
                0 <= i < tasks.len() && (#[trigger] tasks[i]).idempotency_key is Some implies task_under(
                keys,
                tasks[i].idempotency_key->Some_0@,
            ) == Some(tasks[i].id@) by {
                assert(i < init.len());
                assert(init[i] == tasks[i]);
            }
            assert forall|key: Seq<char>| #[trigger]
                task_under(keys, key) is Some implies exists|i: int|
                0 <= i < tasks.len() && (#[trigger] tasks[i]).id@ == task_under(keys, key)->Some_0
                    && text_opt(tasks[i].idempotency_key) == Some(key) by {
                let id = task_under(keys, key)->Some_0;
                let i = choose|i: int|
                    0 <= i < init.len() && (#[trigger] init[i]).id@ == id && text_opt(
                        init[i].idempotency_key,
                    ) == Some(key);
                assert(tasks[i] == init[i]);
            }
        }
    }
}

/// A state that was just read back is consistent.
pub proof fn opened_states_are_consistent(
    m: ManagerModel,
    stored_queue: Seq<Seq<char>>,
)
    requires
        ids_differ(m.tasks),
        keys_of(m.tasks) == Ok::<Seq<(Seq<char>, Seq<char>)>, Seq<char>>(m.keys),
        is_rebuilt_queue(m.tasks, stored_queue, m.queue),
    ensures
        consistent(m),
        keys_are_unique(m.keys),
{
    the_queue_holds_what_waits(m.tasks, stored_queue, m.queue);
    lemma_keys_of(m.tasks, m.keys);
    assert forall|key: Seq<char>| #[trigger]
        task_under(m.keys, key) is Some implies (task_of(m.tasks, task_under(m.keys, key)->Some_0)
        matches Some(task) && text_opt(task.idempotency_key) == Some(key)) by {
        let id = task_under(m.keys, key)->Some_0;
        let i = choose|i: int|
            0 <= i < m.tasks.len() && (#[trigger] m.tasks[i]).id@ == id && text_opt(
                m.tasks[i].idempotency_key,
            ) == Some(key);
        lemma_task_at(m.tasks, i);
    }
}

/// Adding a task keeps keys from standing twice, and so does forgetting one.
pub proof fn keys_stay_unique(m: ManagerModel, task: TaskRecord, id: Seq<char>)
    requires
        keys_are_unique(m.keys),
        existing_task(m, text_opt(task.idempotency_key)) is None,
    ensures
        keys_are_unique(added(m, task).keys),
        keys_are_unique(forgot(m, id).keys),
{
    let keys = m.keys;
    if let Some(own) = text_opt(task.idempotency_key) {
        let new = added(m, task).keys;
        assert forall|i: int, j: int| 0 <= i < j < new.len() implies (#[trigger] new[i]).0 != (
        #[trigger] new[j]).0 by {
            if j < keys.len() {
                assert(keys[i].0 != keys[j].0);
            } else if keys[i].0 == own {
                assert(keys.contains((own, keys[i].1)));
                lemma_unique_key(keys, own, keys[i].1);
            }
        }
    }
    lemma_filter_keys(keys, id);
}

proof fn lemma_filter_keys(keys: Seq<(Seq<char>, Seq<char>)>, id: Seq<char>)
    requires
        keys_are_unique(keys),
    ensures
        keys_are_unique(keys.filter(other_key(id))),
    decreases keys.len(),
{
    let keep = other_key(id);
    reveal(Seq::filter);
    let left = keys.filter(keep);
    if keys.len() > 0 {
        let init = keys.drop_last();
        assert(keys_are_unique(init)) by {
            assert forall|i: int, j: int| 0 <= i < j < init.len() implies (#[trigger] init[i]).0 != (
            #[trigger] init[j]).0 by {
                assert(keys[i].0 != keys[j].0);
            }
        }
        lemma_filter_keys(init, id);
        let before = init.filter(keep);
        if keep(keys.last()) {
            assert(left == before.push(keys.last()));
            assert forall|i: int, j: int| 0 <= i < j < left.len() implies (#[trigger] left[i]).0 != (
            #[trigger] left[j]).0 by {
                if j < before.len() {
                    assert(before[i].0 != before[j].0);
                } else {
                    assert(before.contains(before[i]));
                    init.lemma_filter_contains_rev(keep, before[i]);
                    let k = choose|k: int| 0 <= k < init.len() && init[k] == before[i];
                    assert(keys[k].0 != keys[keys.len() - 1].0);
                }
            }
        }
    } else {
        assert(left =~= Seq::empty());
    }
}

/// A key leads to one task for as long as that task is known: nothing but forgetting
/// the task takes the key away.
pub proof fn a_key_keeps_its_task(
    m: ManagerModel,
    key: Seq<char>,
    id: Seq<char>,
    task: TaskRecord,
    effect: CancelEffect,
    other: Seq<char>,
)
    requires
        task_under(m.keys, key) == Some(id),
        other != id,
    ensures
        task_under(added(m, task).keys, key) == Some(id),
        task_under(replaced(m, task).keys, key) == Some(id),
        task_under(started(m, task).keys, key) == Some(id),
        task_under(canceled(m, task, effect).keys, key) == Some(id),
        task_under(finished(m, task).keys, key) == Some(id),
        task_under(forgot(m, other).keys, key) == Some(id),
{
    if let Some(own) = text_opt(task.idempotency_key) {
        lemma_task_under_push(m.keys, (own, task.id@), key);
    }
    lemma_task_under_filter(m.keys, other, key);
}

proof fn lemma_prunable(tasks: Seq<TaskRecord>, protected: Seq<Seq<char>>)
    ensures
        forall|id: Seq<char>| #[trigger]
            prunable_ids(tasks, protected).contains(id) <==> !protected.contains(id) && exists|i: int|
                0 <= i < tasks.len() && (#[trigger] tasks[i]).id@ == id && tasks[i].status.terminal(),
    decreases tasks.len(),
{
    if tasks.len() > 0 {
        let init = tasks.drop_last();
        let last = tasks.last();
        lemma_prunable(init, protected);
        let before = prunable_ids(init, protected);
        let all = prunable_ids(tasks, protected);
        assert forall|id: Seq<char>| #[trigger]
            all.contains(id) <==> !protected.contains(id) && exists|i: int|
                0 <= i < tasks.len() && (#[trigger] tasks[i]).id@ == id && tasks[i].status.terminal() by {
            if all.contains(id) {
                let k = choose|k: int| 0 <= k < all.len() && all[k] == id;
                if k < before.len() {
                    assert(before[k] == id);
                    assert(before.contains(id));
                    let i = choose|i: int|
                        0 <= i < init.len() && (#[trigger] init[i]).id@ == id
                            && init[i].status.terminal();
                    assert(tasks[i] == init[i]);
                } else {
                    assert(tasks[tasks.len() - 1] == last);
                }
            }
            if !protected.contains(id) && exists|i: int|
                0 <= i < tasks.len() && (#[trigger] tasks[i]).id@ == id && tasks[i].status.terminal() {
                let i = choose|i: int|
                    0 <= i < tasks.len() && (#[trigger] tasks[i]).id@ == id
                        && tasks[i].status.terminal();
                if i < init.len() {
                    assert(init[i] == tasks[i]);
                    assert(before.contains(id));
                    let k = choose|k: int| 0 <= k < before.len() && before[k] == id;
                    assert(all[k] == id);
                } else {
                    assert(all[before.len() as int] == id);
                }
            }
        }
    }
}

/// Pruning reaches every task that is over and not protected, and no other: what
/// waits, runs or is protected is kept.
pub proof fn pruning_spares_what_is_needed(
    tasks: Seq<TaskRecord>,
    protected: Seq<Seq<char>>,
    candidates: Seq<Seq<char>>,
)
    requires
        ids_differ(tasks),
        is_sorted_from(prunable_ids(tasks, protected), candidates, id_order()),
    ensures
        forall|id: Seq<char>| #[trigger]
            candidates.contains(id) <==> !protected.contains(id) && (task_of(tasks, id)
                matches Some(task) && task.status.terminal()),
{
    lemma_prunable(tasks, protected);
    sorting_keeps_the_items(prunable_ids(tasks, protected), candidates, id_order());
    assert forall|id: Seq<char>| #[trigger]
        candidates.contains(id) <==> !protected.contains(id) && (task_of(tasks, id)
            matches Some(task) && task.status.terminal()) by {
        assert(candidates.contains(id) <==> prunable_ids(tasks, protected).contains(id));
        lemma_task_index(tasks, id);
        if exists|i: int|
            0 <= i < tasks.len() && (#[trigger] tasks[i]).id@ == id && tasks[i].status.terminal() {
            let i = choose|i: int|
                0 <= i < tasks.len() && (#[trigger] tasks[i]).id@ == id && tasks[i].status.terminal();
            lemma_task_at(tasks, i);
        }
        if task_of(tasks, id) is Some {
            let k = task_index(tasks, id);
            assert(tasks[k].id@ == id);
        }
    }
}

/// An executor is told that calls need no approval only where the request for its task asked
/// for that, whatever the configuration.
pub proof fn approval_is_never_assumed(
    req: NewTaskRequest,
    cfg: TaskManagerConfig,
    default_workspace: Seq<char>,
    key: Option<Seq<char>>,
    id: Seq<char>,
    now: Timestamp,
    task: TaskRecord,
    at: Timestamp,
    started: TaskRecord,
    handed: ExecutionTask,
)
    requires
        is_new_task(task, req, cfg, default_workspace, key, id, now),
        is_started(task, at, started),
        is_request_for(handed, started),
    ensures
        handed.auto_approve == (req.auto_approve == Some(true)),
{
}

} // verus!
