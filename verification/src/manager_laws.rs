//! What a manager shows of its tasks and what each change leaves, one task at a time.
use vstd::prelude::*;
use vstd::string::*;

use crate::order::{arranges, is_sorted_from, sorting_keeps_the_items};
use crate::run_index::limited;
use crate::storage_id::{is_safe_id, storage_id_fault};
use crate::task::{is_summary_of, TaskRecord, TaskStatus, TaskSummary};
use crate::task_events::CancelEffect;
use crate::task_recovery::has_task;
use crate::task_store::{
    are_summaries, changed, count_of, forgot, from_first_waiting, keys_of, lemma_task_index,
    matching_ids, newer_task, other_key, other_task, other_than, prunable_ids, resolution,
    task_index, task_of, task_under, with_task, without_id, Change, ManagerModel,
};
use crate::text::{split_on, starts_with_seq};

verus! {

// Looking up -----------------------------------------------------------------
/// The task that is found under an identifier has it, and is the first that does; none is found
/// only where no task has it.
pub proof fn tasks_are_found_under_their_identifier(tasks: Seq<TaskRecord>, id: Seq<char>)
    ensures
        task_of(tasks, id) matches Some(task) ==> task.id@ == id && exists|i: int|
            0 <= i < tasks.len() && #[trigger] tasks[i] == task && forall|j: int|
                0 <= j < i ==> (#[trigger] tasks[j]).id@ != id,
        task_of(tasks, id) is None <==> forall|i: int|
            0 <= i < tasks.len() ==> (#[trigger] tasks[i]).id@ != id,
{
    lemma_task_index(tasks, id);
    let k = task_index(tasks, id);
    if k < tasks.len() {
        assert(tasks[k].id@ == id);
    }
}

proof fn lemma_matching(tasks: Seq<TaskRecord>, prefix: Seq<char>, id: Seq<char>)
    ensures
        matching_ids(tasks, prefix).contains(id) <==> exists|i: int|
            0 <= i < tasks.len() && (#[trigger] tasks[i]).id@ == id && starts_with_seq(id, prefix),
    decreases tasks.len(),
{
    if tasks.len() > 0 {
        let init = tasks.drop_last();
        let before = matching_ids(init, prefix);
        let all = matching_ids(tasks, prefix);
        let n = tasks.len() - 1;
        lemma_matching(init, prefix, id);
        if all.contains(id) {
            let k = choose|k: int| 0 <= k < all.len() && all[k] == id;
            if k < before.len() {
                assert(before[k] == id);
                let i = choose|i: int|
                    0 <= i < init.len() && (#[trigger] init[i]).id@ == id && starts_with_seq(
                        id,
                        prefix,
                    );
                assert(tasks[i].id@ == id);
            } else {
                assert(tasks[n].id@ == id);
            }
        }
        if exists|i: int|
            0 <= i < tasks.len() && (#[trigger] tasks[i]).id@ == id && starts_with_seq(id, prefix) {
            let i = choose|i: int|
                0 <= i < tasks.len() && (#[trigger] tasks[i]).id@ == id && starts_with_seq(
                    id,
                    prefix,
                );
            if i < n {
                assert(init[i].id@ == id);
                let k = choose|k: int| 0 <= k < before.len() && before[k] == id;
                assert(all[k] == id);
            } else {
                assert(all[before.len() as int] == id);
            }
        }
    }
}

/// A full identifier stands for itself; a shortened one for the task whose identifier begins with
/// it, where there is just one such task, and for none otherwise.
pub proof fn shortened_identifiers_stand_for_one_task(
    tasks: Seq<TaskRecord>,
    id: Seq<char>,
    found: Seq<char>,
)
    ensures
        (exists|i: int| 0 <= i < tasks.len() && (#[trigger] tasks[i]).id@ == id) ==> resolution(
            tasks,
            id,
        ) == Ok::<Seq<char>, Seq<char>>(id),
        resolution(tasks, id) == Ok::<Seq<char>, Seq<char>>(found) ==> (exists|i: int|
            0 <= i < tasks.len() && (#[trigger] tasks[i]).id@ == found) && found.len() >= id.len()
            && found.take(id.len() as int) == id,
        resolution(tasks, id) == Ok::<Seq<char>, Seq<char>>(found) && found != id ==> forall|i: int|
            0 <= i < tasks.len() && (#[trigger] tasks[i]).id@ != found ==> !starts_with_seq(
                tasks[i].id@,
                id,
            ),
        (forall|i: int| 0 <= i < tasks.len() ==> !starts_with_seq((#[trigger] tasks[i]).id@, id))
            ==> resolution(tasks, id) == Err::<Seq<char>, Seq<char>>("Task not found: "@ + id),
{
    let all = matching_ids(tasks, id);
    if exists|i: int| 0 <= i < tasks.len() && (#[trigger] tasks[i]).id@ == id {
        assert(has_task(tasks, id));
    } else {
        assert(!has_task(tasks, id));
    }
    if resolution(tasks, id) == Ok::<Seq<char>, Seq<char>>(found) {
        if found != id {
            assert(all.contains(all[0]));
            lemma_matching(tasks, id, found);
            assert forall|i: int| 0 <= i < tasks.len() && (#[trigger] tasks[i]).id@
                != found implies !starts_with_seq(tasks[i].id@, id) by {
                if starts_with_seq(tasks[i].id@, id) {
                    lemma_matching(tasks, id, tasks[i].id@);
                    assert(all.contains(tasks[i].id@));
                }
            }
        } else if has_task(tasks, id) {
            assert(id.take(id.len() as int) =~= id);
        } else {
            assert(all.contains(all[0]));
            lemma_matching(tasks, id, found);
        }
    }
    if forall|i: int| 0 <= i < tasks.len() ==> !starts_with_seq((#[trigger] tasks[i]).id@, id) {
        if has_task(tasks, id) {
            let i = choose|i: int| 0 <= i < tasks.len() && (#[trigger] tasks[i]).id@ == id;
            assert(id.take(id.len() as int) =~= id);
            assert(starts_with_seq(tasks[i].id@, id));
        }
        if all.len() > 0 {
            assert(all.contains(all[0]));
            lemma_matching(tasks, id, all[0]);
            let i = choose|i: int|
                0 <= i < tasks.len() && (#[trigger] tasks[i]).id@ == all[0] && starts_with_seq(
                    all[0],
                    id,
                );
            assert(starts_with_seq(tasks[i].id@, id));
        }
    }
}

/// Every task counts once, under its own status.
pub proof fn every_task_counts_once(tasks: Seq<TaskRecord>, task: TaskRecord, status: TaskStatus)
    ensures
        count_of(Seq::empty(), status) == 0,
        count_of(tasks.push(task), status) == count_of(tasks, status) + (if task.status == status {
            1nat
        } else {
            0nat
        }),
        count_of(tasks, TaskStatus::Queued) + count_of(tasks, TaskStatus::Running) + count_of(
            tasks,
            TaskStatus::Completed,
        ) + count_of(tasks, TaskStatus::Failed) + count_of(tasks, TaskStatus::Canceled)
            == tasks.len(),
    decreases tasks.len(),
{
    assert(tasks.push(task).drop_last() =~= tasks);
    if tasks.len() > 0 {
        every_task_counts_once(tasks.drop_last(), task, status);
    }
}

/// A short view is one of the tasks'.
pub open spec fn shows_a_task(summary: TaskSummary, tasks: Seq<TaskRecord>) -> bool {
    exists|k: int| 0 <= k < tasks.len() && is_summary_of(summary, #[trigger] tasks[k])
}

/// A task is among those shown.
pub open spec fn is_shown(list: Seq<TaskSummary>, task: TaskRecord) -> bool {
    exists|i: int| 0 <= i < list.len() && is_summary_of(#[trigger] list[i], task)
}

/// A listing shows the newest tasks first, each as it is, and leaves out only what is not newer
/// than what it shows; a limit cuts it off at the end.
pub proof fn listings_show_the_newest_first(
    tasks: Seq<TaskRecord>,
    list: Seq<TaskSummary>,
    sorted: Seq<TaskSummary>,
    limit: Option<usize>,
    r: Seq<TaskSummary>,
)
    requires
        are_summaries(list, tasks),
        is_sorted_from(list, sorted, newer_task()),
        r == limited(sorted, limit),
    ensures
        limit is None ==> r.len() == tasks.len(),
        limit matches Some(n) ==> r.len() == (if n < tasks.len() {
            n as nat
        } else {
            tasks.len()
        }),
        forall|i: int, j: int|
            #![trigger r[i], r[j]]
            0 <= i < j < r.len() ==> r[i].created_at.secs > r[j].created_at.secs || (
            r[i].created_at.secs == r[j].created_at.secs && r[i].created_at.nanos
                >= r[j].created_at.nanos),
        forall|i: int|
            0 <= i < r.len() ==> shows_a_task(#[trigger] r[i], tasks),
        limit is None ==> forall|k: int|
            0 <= k < tasks.len() ==> is_shown(r, #[trigger] tasks[k]),
{
    let p = choose|p: Seq<int>| #[trigger] arranges(p, list, sorted, newer_task());
    sorting_keeps_the_items(list, sorted, newer_task());
    assert forall|i: int, j: int|
        #![trigger r[i], r[j]]
        0 <= i < j < r.len() implies r[i].created_at.secs > r[j].created_at.secs || (
    r[i].created_at.secs == r[j].created_at.secs && r[i].created_at.nanos
        >= r[j].created_at.nanos) by {
        assert(p[i] != p[j]);
        assert(!(newer_task())(sorted[j], sorted[i]));
    }
    assert forall|i: int| 0 <= i < r.len() implies shows_a_task(#[trigger] r[i], tasks) by {
        let k = p[i];
        assert(is_summary_of(list[k], tasks[k]));
    }
    if limit is None {
        assert forall|k: int| 0 <= k < tasks.len() implies is_shown(r, #[trigger] tasks[k]) by {
            assert(list.contains(list[k]));
            let i = choose|i: int| 0 <= i < sorted.len() && sorted[i] == list[k];
            assert(is_summary_of(r[i], tasks[k]));
        }
    }
}

// Changes --------------------------------------------------------------------
proof fn lemma_with_task(tasks: Seq<TaskRecord>, task: TaskRecord, id: Seq<char>)
    ensures
        task_of(with_task(tasks, task), task.id@) == Some(task),
        id != task.id@ ==> task_of(with_task(tasks, task), id) == task_of(tasks, id),
{
    let new = with_task(tasks, task);
    lemma_task_index(tasks, task.id@);
    lemma_task_index(new, task.id@);
    lemma_task_index(tasks, id);
    lemma_task_index(new, id);
    let k = task_index(tasks, task.id@);
    assert(new[k] == task);
    let n = task_index(new, task.id@);
    if n < k {
        assert(new[n] == tasks[n]);
    }
    if n > k {
        assert(new[k].id@ != task.id@);
    }
    if id != task.id@ {
        let i = task_index(tasks, id);
        let j = task_index(new, id);
        if i < tasks.len() {
            assert(new[i] == tasks[i]);
            if j < i {
                assert(new[j] == tasks[j] || j == k);
            }
        }
        if j < new.len() {
            if j < tasks.len() && j != k {
                assert(new[j] == tasks[j]);
            }
            if i < j {
                assert(new[i].id@ != id);
            }
        }
    }
}

proof fn lemma_dropped<T>(all: Seq<T>, keep: spec_fn(T) -> bool, x: T)
    ensures
        all.filter(keep).contains(x) <==> all.contains(x) && keep(x),
    decreases all.len(),
{
    reveal(Seq::filter);
    if all.len() > 0 {
        let init = all.drop_last();
        let last = all.last();
        lemma_dropped(init, keep, x);
        lemma_added(init, last, x);
        assert(init.push(last) =~= all);
        lemma_added(init.filter(keep), last, x);
    }
}

proof fn lemma_added<T>(s: Seq<T>, last: T, x: T)
    ensures
        s.push(last).contains(x) <==> s.contains(x) || x == last,
{
    if s.contains(x) {
        let i = choose|i: int| 0 <= i < s.len() && s[i] == x;
        assert(s.push(last)[i] == x);
    }
    assert(s.push(last)[s.len() as int] == last);
    if s.push(last).contains(x) {
        let i = choose|i: int| 0 <= i < s.push(last).len() && s.push(last)[i] == x;
        if i < s.len() {
            assert(s[i] == x);
        }
    }
}

/// A new task is found under its identifier, stands last in the queue, and its key leads to it;
/// every other task stays as it was, and none is running that was not.
pub proof fn new_tasks_are_queued_last(m: ManagerModel, task: TaskRecord, id: Seq<char>)
    ensures
        ({
            let n = changed(m, Change::New(task));
            &&& task_of(n.tasks, task.id@) == Some(task)
            &&& id != task.id@ ==> task_of(n.tasks, id) == task_of(m.tasks, id)
            &&& n.queue == m.queue.push(task.id@)
            &&& n.running == m.running
            &&& task.idempotency_key is None ==> n.keys == m.keys
            &&& task.idempotency_key matches Some(key) ==> n.keys == m.keys.push((key@, task.id@))
        }),
{
    lemma_with_task(m.tasks, task, id);
}

/// A record that takes the place of another changes that task alone.
pub proof fn replaced_records_change_one_task(m: ManagerModel, task: TaskRecord, id: Seq<char>)
    ensures
        ({
            let n = changed(m, Change::Replace(task));
            &&& task_of(n.tasks, task.id@) == Some(task)
            &&& id != task.id@ ==> task_of(n.tasks, id) == task_of(m.tasks, id)
            &&& n.queue == m.queue && n.keys == m.keys && n.running == m.running
        }),
{
    lemma_with_task(m.tasks, task, id);
}

/// A task that is started leaves the head of the queue and runs; the rest of the queue keeps its
/// order, and what else runs goes on.
pub proof fn started_tasks_leave_the_queue(m: ManagerModel, task: TaskRecord, id: Seq<char>)
    requires
        m.queue.len() > 0,
    ensures
        ({
            let n = changed(m, Change::Start(task));
            &&& task_of(n.tasks, task.id@) == Some(task)
            &&& id != task.id@ ==> task_of(n.tasks, id) == task_of(m.tasks, id)
            &&& n.queue == m.queue.skip(1)
            &&& n.keys == m.keys
            &&& n.running.contains(task.id@)
            &&& id != task.id@ ==> (n.running.contains(id) <==> m.running.contains(id))
        }),
{
    lemma_with_task(m.tasks, task, id);
    assert(m.queue.drop_first() =~= m.queue.skip(1));
    let kept = without_id(m.running, task.id@);
    lemma_dropped(m.running, other_than(task.id@), id);
    lemma_added(kept, task.id@, id);
    lemma_added(kept, task.id@, task.id@);
}

/// A canceled task that waited is in the queue no more, and nothing else leaves it; one that runs
/// keeps running, and one that is over changes nothing.
pub proof fn canceled_tasks_leave_the_queue(
    m: ManagerModel,
    task: TaskRecord,
    effect: CancelEffect,
    id: Seq<char>,
)
    ensures
        ({
            let n = changed(m, Change::Cancel { task, effect });
            &&& n.keys == m.keys && n.running == m.running
            &&& effect is Nothing ==> n == m
            &&& effect !is Nothing ==> task_of(n.tasks, task.id@) == Some(task) && (id != task.id@
                ==> task_of(n.tasks, id) == task_of(m.tasks, id))
            &&& effect is Signal ==> n.queue == m.queue
            &&& effect is LeaveQueue ==> !n.queue.contains(task.id@) && (id != task.id@ ==> (
            n.queue.contains(id) <==> m.queue.contains(id)))
        }),
{
    lemma_with_task(m.tasks, task, id);
    lemma_dropped(m.queue, other_than(task.id@), id);
    lemma_dropped(m.queue, other_than(task.id@), task.id@);
}

/// A task that has ended runs no more; what else runs goes on, and queue and keys stay.
pub proof fn finished_tasks_run_no_more(m: ManagerModel, task: TaskRecord, id: Seq<char>)
    ensures
        ({
            let n = changed(m, Change::Finish(task));
            &&& task_of(n.tasks, task.id@) == Some(task)
            &&& id != task.id@ ==> task_of(n.tasks, id) == task_of(m.tasks, id)
            &&& n.queue == m.queue && n.keys == m.keys
            &&& !n.running.contains(task.id@)
            &&& id != task.id@ ==> (n.running.contains(id) <==> m.running.contains(id))
        }),
{
    lemma_with_task(m.tasks, task, id);
    lemma_dropped(m.running, other_than(task.id@), id);
    lemma_dropped(m.running, other_than(task.id@), task.id@);
}

/// A task that is forgotten leaves no trace, and every other task, with its place in the queue and
/// its key, stays.
pub proof fn forgotten_tasks_leave_no_trace(
    m: ManagerModel,
    id: Seq<char>,
    task: TaskRecord,
    other: Seq<char>,
    key: Seq<char>,
)
    ensures
        ({
            let n = forgot(m, id);
            &&& n.tasks.contains(task) <==> m.tasks.contains(task) && task.id@ != id
            &&& n.queue.contains(other) <==> m.queue.contains(other) && other != id
            &&& n.running.contains(other) <==> m.running.contains(other) && other != id
            &&& n.keys.contains((key, other)) <==> m.keys.contains((key, other)) && other != id
        }),
{
    lemma_dropped(m.tasks, other_task(id), task);
    lemma_dropped(m.queue, other_than(id), other);
    lemma_dropped(m.running, other_than(id), other);
    lemma_dropped(m.keys, other_key(id), (key, other));
}

/// A key leads to the task of its first mention.
pub proof fn keys_lead_to_their_first_task(
    keys: Seq<(Seq<char>, Seq<char>)>,
    key: Seq<char>,
    id: Seq<char>,
    other: Seq<char>,
)
    ensures
        task_under(Seq::empty(), key) is None,
        task_under(keys, key) is None ==> task_under(keys.push((key, id)), key) == Some(id),
        task_under(keys, key) is Some ==> task_under(keys.push((key, id)), key) == task_under(
            keys,
            key,
        ),
        other != key ==> task_under(keys.push((other, id)), key) == task_under(keys, key),
    decreases keys.len(),
{
    if keys.len() > 0 {
        let rest = keys.drop_first();
        keys_lead_to_their_first_task(rest, key, id, other);
        assert(keys.push((key, id)).drop_first() =~= rest.push((key, id)));
        assert(keys.push((other, id)).drop_first() =~= rest.push((other, id)));
    } else {
        assert(keys.push((key, id)).drop_first() =~= Seq::empty());
        assert(keys.push((other, id)).drop_first() =~= Seq::empty());
        assert(keys =~= Seq::empty());
    }
}

/// The keys of tasks that are read back: each task that has a key is found under it; two tasks with
/// one key are refused, by both their names.
pub proof fn keys_of_tasks_lead_to_them(tasks: Seq<TaskRecord>, task: TaskRecord)
    requires
        keys_of(tasks) is Ok,
    ensures
        task.idempotency_key is None ==> keys_of(tasks.push(task)) == keys_of(tasks),
        task.idempotency_key matches Some(key) ==> match task_under(keys_of(tasks)->Ok_0, key@) {
            None => keys_of(tasks.push(task)) == Ok::<Seq<(Seq<char>, Seq<char>)>, Seq<char>>(
                keys_of(tasks)->Ok_0.push((key@, task.id@)),
            ),
            Some(first) => keys_of(tasks.push(task)) == Err::<
                Seq<(Seq<char>, Seq<char>)>,
                Seq<char>,
            >(
                "Duplicate task idempotency key '"@ + key@ + "' for tasks '"@ + first + "' and '"@
                    + task.id@ + "'"@,
            ),
        },
{
    assert(tasks.push(task).drop_last() =~= tasks);
}

// The queue ------------------------------------------------------------------
/// What is dropped from the head of the queue does not wait; what is left is the rest of the queue
/// as it stands, and begins with a task that waits.
pub proof fn the_head_of_the_queue_waits(tasks: Seq<TaskRecord>, queue: Seq<Seq<char>>)
    ensures
        ({
            let rest = from_first_waiting(tasks, queue);
            &&& rest.len() <= queue.len()
            &&& rest == queue.skip(queue.len() - rest.len())
            &&& rest.len() > 0 ==> (task_of(tasks, rest[0]) matches Some(task)
                && task.status is Queued)
            &&& forall|i: int|
                0 <= i < queue.len() - rest.len() ==> !(task_of(tasks, #[trigger] queue[i])
                    matches Some(task) && task.status is Queued)
        }),
    decreases queue.len(),
{
    if queue.len() == 0 {
        assert(queue.skip(0) =~= queue);
    } else if task_of(tasks, queue[0]) matches Some(task) && task.status is Queued {
        assert(queue.skip(0) =~= queue);
    } else {
        let tail = queue.drop_first();
        the_head_of_the_queue_waits(tasks, tail);
        let rest = from_first_waiting(tasks, queue);
        assert(tail.skip(tail.len() - rest.len()) =~= queue.skip(queue.len() - rest.len()));
        assert forall|i: int| 0 <= i < queue.len() - rest.len() implies !(task_of(
            tasks,
            #[trigger] queue[i],
        ) matches Some(task) && task.status is Queued) by {
            if i > 0 {
                assert(tail[i - 1] == queue[i]);
            }
        }
    }
}

/// A task may be deleted just where it is completed, failed or canceled, and not protected.
pub proof fn only_what_is_over_may_be_deleted(
    tasks: Seq<TaskRecord>,
    protected: Seq<Seq<char>>,
    id: Seq<char>,
)
    ensures
        prunable_ids(tasks, protected).contains(id) <==> !protected.contains(id) && exists|i: int|
            0 <= i < tasks.len() && (#[trigger] tasks[i]).id@ == id && (tasks[i].status is Completed
                || tasks[i].status is Failed || tasks[i].status is Canceled),
    decreases tasks.len(),
{
    if tasks.len() > 0 {
        let init = tasks.drop_last();
        let before = prunable_ids(init, protected);
        let all = prunable_ids(tasks, protected);
        let last = tasks.last();
        let n = tasks.len() - 1;
        only_what_is_over_may_be_deleted(init, protected, id);
        if before.contains(id) {
            let i = choose|i: int|
                0 <= i < init.len() && (#[trigger] init[i]).id@ == id && (init[i].status is Completed
                    || init[i].status is Failed || init[i].status is Canceled);
            assert(tasks[i].id@ == id);
        }
        if exists|i: int|
            0 <= i < tasks.len() && (#[trigger] tasks[i]).id@ == id && (tasks[i].status is Completed
                || tasks[i].status is Failed || tasks[i].status is Canceled) {
            let i = choose|i: int|
                0 <= i < tasks.len() && (#[trigger] tasks[i]).id@ == id && (
                tasks[i].status is Completed || tasks[i].status is Failed
                    || tasks[i].status is Canceled);
            if i < n {
                assert(init[i].id@ == id);
            }
        }
        if last.status.terminal() && !protected.contains(last.id@) {
            lemma_added(before, last.id@, id);
            assert(tasks[n].id@ == last.id@);
        }
    }
}

// Names of files -------------------------------------------------------------
/// An identifier without a slash may name a file, unless it is empty or one of the two names that
/// stand for directories; whatever may name a file does not begin with a slash, and does not begin
/// with the directory above.
pub proof fn identifiers_name_one_file(kind: Seq<char>, id: Seq<char>)
    ensures
        !id.contains('/') ==> (is_safe_id(id) <==> id.len() > 0 && id != "."@ && id != ".."@),
        is_safe_id(id) ==> id.len() > 0 && id[0] != '/' && id != "."@ && id != ".."@,
        id.len() == 0 ==> storage_id_fault(kind, id) == Some(kind + " must not be empty"@),
        id.len() > 0 && !is_safe_id(id) ==> storage_id_fault(kind, id) == Some(
            kind + " must be a single path component"@,
        ),
        id.len() > 0 && is_safe_id(id) ==> storage_id_fault(kind, id) is None,
        is_safe_id(id) ==> forall|i: int|
            1 <= i < split_on(id, '/').len() ==> (#[trigger] split_on(id, '/')[i]).len() == 0
                || split_on(id, '/')[i] == "."@,
{
    reveal_strlit(".");
    reveal_strlit("..");
    if !id.contains('/') {
        crate::text_laws::lemma_split_none(id, '/');
    } else {
        let k = crate::text::first_index(id, '/');
        crate::text::lemma_first_index(id, '/');
        let i = choose|i: int| 0 <= i < id.len() && id[i] == '/';
        assert(k <= i) by {
            if k > i {
                assert(id[i] != '/');
            }
        }
        assert(split_on(id, '/')[0] == id.take(k));
        if is_safe_id(id) {
            assert(id.take(k).len() > 0);
            assert("."@[0] == '.' && ".."@[0] == '.' && ".."@[1] == '.');
            assert(id != "."@ && id != ".."@) by {
                assert("."@.len() == 1 && ".."@.len() == 2);
                assert(id[k] == '/');
            }
        }
    }
}

} // verus!
