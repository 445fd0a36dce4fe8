//! Tasks that are read back after a restart.
use vstd::prelude::*;
use vstd::string::*;

use crate::automation::{newer_schema, newer_schema_failure};
use crate::failure::{fault_of, Failure};
use crate::order::{
    arranges, is_sorted_from, items_in_order_have_one_arrangement, sort_stable,
    sorting_keeps_the_items, strict_weak,
};
use crate::storage_id::{ensure_safe_storage_id, storage_id_fault};
use crate::task::{
    normalize_persisted_task_mode, stored_mode_refusal, stored_task_mode, TaskRecord, TaskStatus,
    TaskToolCallSummary, TaskToolStatus, CURRENT_TASK_SCHEMA_VERSION,
};
use crate::task_updates::{add_entry, adds_entry};
use crate::text::{
    contains_text, copy_text, join2, join3, lex_less, lex_less_is_a_strict_order, same_text,
    text_less, text_opt, texts,
};
use crate::time::{checked_duration_millis, checked_duration_ms, Timestamp};

verus! {

/// A call of a task that is closed by force: a call that still ran has failed.
pub open spec fn is_closed_call(
    old: TaskToolCallSummary,
    task_duration: Option<u64>,
    now: Timestamp,
    new: TaskToolCallSummary,
) -> bool {
    if old.status is Running {
        new == (TaskToolCallSummary {
            status: TaskToolStatus::Failed,
            ended_at: Some(now),
            duration_ms: match task_duration {
                Some(ms) => Some(ms),
                None => checked_duration_millis(old.started_at, now),
            },
            ..old
        })
    } else {
        new == old
    }
}

/// How long a task ran, where that is known.
pub open spec fn run_duration(task: TaskRecord, now: Timestamp) -> Option<u64> {
    match task.started_at {
        Some(start) => checked_duration_millis(start, now),
        None => None,
    }
}

/// A task that is closed by force.
pub open spec fn is_closed(
    old: TaskRecord,
    mode: Seq<char>,
    error: Seq<char>,
    kind: Seq<char>,
    now: Timestamp,
    new: TaskRecord,
) -> bool {
    &&& new == (TaskRecord {
        mode: new.mode,
        status: TaskStatus::Failed,
        ended_at: Some(now),
        duration_ms: run_duration(old, now),
        error: new.error,
        tool_calls: new.tool_calls,
        timeline: new.timeline,
        ..old
    })
    &&& new.mode@ == mode
    &&& text_opt(new.error) == Some(error)
    &&& new.tool_calls@.len() == old.tool_calls@.len()
    &&& forall|i: int|
        0 <= i < old.tool_calls@.len() ==> is_closed_call(
            old.tool_calls@[i],
            run_duration(old, now),
            now,
            #[trigger] new.tool_calls@[i],
        )
    &&& adds_entry(old.timeline@, new.timeline@, now, kind, error, None)
}

/// The words for a task that was running when the process ended.
pub open spec fn interrupted_words() -> Seq<char> {
    "Interrupted by process restart; prior process is not attached"@
}

/// What becomes of a task that is read back, and whether that differs from what was
/// stored.
pub open spec fn is_recovered(
    old: TaskRecord,
    now: Timestamp,
    new: TaskRecord,
    changed: bool,
) -> bool {
    match stored_task_mode(old.mode@) {
        None => changed && is_closed(
            old,
            "agent"@,
            stored_mode_refusal(old.mode@),
            "recovered_invalid_mode"@,
            now,
            new,
        ),
        Some(mode) => if old.status is Running {
            changed && is_closed(old, mode, interrupted_words(), "recovered"@, now, new)
        } else if old.mode@ == mode {
            !changed && new == old
        } else {
            changed && new == (TaskRecord { mode: new.mode, ..old }) && new.mode@ == mode
        },
    }
}

/// What is wrong with the identity or the layout of a task that is read back from
/// the file `path`, whose name without extension is `file_stem`.
pub open spec fn identity_fault(
    task: TaskRecord,
    file_stem: Seq<char>,
    path: Seq<char>,
) -> Option<Seq<char>> {
    if storage_id_fault("persisted task id"@, task.id@) is Some {
        Some("Invalid task identity in "@ + path)
    } else if file_stem != task.id@ {
        Some(
            "Task filename stem '"@ + file_stem + "' does not match persisted task id '"@ + task.id@
                + "' in "@ + path,
        )
    } else if task.schema_version > CURRENT_TASK_SCHEMA_VERSION {
        Some(newer_schema("Task"@, task.schema_version, CURRENT_TASK_SCHEMA_VERSION))
    } else {
        None
    }
}

/// What is wrong with a marker, read from the file `path`, that says that a task is being
/// removed.
pub open spec fn prune_marker_fault(
    task_id: Seq<char>,
    file_stem: Seq<char>,
    path: Seq<char>,
) -> Option<Seq<char>> {
    if storage_id_fault("pruned task id"@, task_id) is Some {
        Some("Invalid task prune marker "@ + path)
    } else if file_stem != task_id {
        Some(
            "Task prune marker stem '"@ + file_stem + "' does not match task id '"@ + task_id
                + "' in "@ + path,
        )
    } else {
        None
    }
}

/// Accepts a marker only where it names the task that its file is named after.
pub fn validate_prune_marker(task_id: &str, file_stem: &str, path: &str) -> (r: Result<(), Failure>)
    ensures
        fault_of(r) == prune_marker_fault(task_id@, file_stem@, path@),
{
    if ensure_safe_storage_id("pruned task id", task_id).is_err() {
        return Err(Failure { message: join2("Invalid task prune marker ", path) });
    }
    if !same_text(file_stem, task_id) {
        let mut message = join3("Task prune marker stem '", file_stem, "' does not match task id '");
        message.append(task_id);
        message.append("' in ");
        message.append(path);
        return Err(Failure { message });
    }
    Ok(())
}

fn close_calls(
    calls: Vec<TaskToolCallSummary>,
    task_duration: Option<u64>,
    now: Timestamp,
) -> (r: Vec<TaskToolCallSummary>)
    ensures
        r@.len() == calls@.len(),
        forall|i: int|
            0 <= i < calls@.len() ==> is_closed_call(
                calls@[i],
                task_duration,
                now,
                #[trigger] r@[i],
            ),
{
    let ghost all = calls@;
    let mut rest = calls;
    let mut out: Vec<TaskToolCallSummary> = Vec::new();
    while rest.len() > 0
        invariant
            rest@.len() + out@.len() == all.len(),
            rest@ == all.skip(out@.len() as int),
            forall|i: int|
                0 <= i < out@.len() ==> is_closed_call(all[i], task_duration, now, #[trigger] out@[i]),
        decreases rest@.len(),
    {
        let ghost done = out@.len() as int;
        let call = rest.remove(0);
        assert(call == all[done]);
        let closed = if call.status == TaskToolStatus::Running {
            let own = checked_duration_ms(call.started_at, now);
            TaskToolCallSummary {
                status: TaskToolStatus::Failed,
                ended_at: Some(now),
                duration_ms: match task_duration {
                    Some(ms) => Some(ms),
                    None => own,
                },
                ..call
            }
        } else {
            call
        };
        out.push(closed);
        assert(rest@ =~= all.skip(done + 1));
    }
    out
}

fn close_record(
    task: TaskRecord,
    mode: String,
    error: &str,
    kind: &str,
    now: Timestamp,
) -> (r: TaskRecord)
    ensures
        is_closed(task, mode@, error@, kind@, now, r),
{
    let duration = match task.started_at {
        Some(start) => checked_duration_ms(start, now),
        None => None,
    };
    let mut out = task;
    out.mode = mode;
    out.status = TaskStatus::Failed;
    out.ended_at = Some(now);
    out.duration_ms = duration;
    out.error = Some(copy_text(error));
    let mut calls: Vec<TaskToolCallSummary> = Vec::new();
    std::mem::swap(&mut calls, &mut out.tool_calls);
    out.tool_calls = close_calls(calls, duration, now);
    add_entry(&mut out, now, kind, copy_text(error), None);
    out
}

/// Takes back a task that was read from a file. A task that was running has failed: no
/// process is attached to it any more. The flag says whether the record differs from
/// what was read.
pub fn recover_task(task: TaskRecord, file_stem: &str, path: &str, now: Timestamp) -> (r: Result<
    (TaskRecord, bool),
    Failure,
>)
    ensures
        match identity_fault(task, file_stem@, path@) {
            Some(words) => r matches Err(e) && e@ == words,
            None => r matches Ok((new, changed)) && is_recovered(task, now, new, changed),
        },
{
    if ensure_safe_storage_id("persisted task id", task.id.as_str()).is_err() {
        return Err(Failure { message: join2("Invalid task identity in ", path) });
    }
    if !same_text(file_stem, task.id.as_str()) {
        let mut message = join3(
            "Task filename stem '",
            file_stem,
            "' does not match persisted task id '",
        );
        message.append(task.id.as_str());
        message.append("' in ");
        message.append(path);
        return Err(Failure { message });
    }
    if task.schema_version > CURRENT_TASK_SCHEMA_VERSION {
        return Err(
            newer_schema_failure("Task", task.schema_version, CURRENT_TASK_SCHEMA_VERSION),
        );
    }
    match normalize_persisted_task_mode(task.mode.as_str()) {
        Err(e) => {
            let out = close_record(
                task,
                copy_text("agent"),
                e.message.as_str(),
                "recovered_invalid_mode",
                now,
            );
            Ok((out, true))
        },
        Ok(mode) => {
            if task.status == TaskStatus::Running {
                let out = close_record(
                    task,
                    mode,
                    "Interrupted by process restart; prior process is not attached",
                    "recovered",
                    now,
                );
                return Ok((out, true));
            }
            let changed = !same_text(task.mode.as_str(), mode.as_str());
            let mut out = task;
            if changed {
                out.mode = mode;
            }
            Ok((out, changed))
        },
    }
}

// The list of tasks ----------------------------------------------------------
/// Whether a task with identifier `id` is among `tasks`.
pub open spec fn has_task(tasks: Seq<TaskRecord>, id: Seq<char>) -> bool {
    exists|i: int| 0 <= i < tasks.len() && (#[trigger] tasks[i]).id@ == id
}

/// Whether a task with identifier `id` waits to be run.
pub open spec fn has_queued(tasks: Seq<TaskRecord>, id: Seq<char>) -> bool {
    exists|i: int|
        0 <= i < tasks.len() && (#[trigger] tasks[i]).id@ == id && tasks[i].status is Queued
}

/// No identifier stands twice.
pub open spec fn ids_differ(tasks: Seq<TaskRecord>) -> bool {
    forall|i: int, j: int|
        0 <= i < j < tasks.len() ==> (#[trigger] tasks[i]).id@ != (#[trigger] tasks[j]).id@
}

/// Whether `id` is the identifier of one of the tasks.
pub fn knows_task(tasks: &Vec<TaskRecord>, id: &str) -> (r: bool)
    ensures
        r == has_task(tasks@, id@),
{
    let mut i: usize = 0;
    while i < tasks.len()
        invariant
            i <= tasks@.len(),
            forall|k: int| 0 <= k < i ==> (#[trigger] tasks@[k]).id@ != id@,
        decreases tasks@.len() - i,
    {
        if same_text(tasks[i].id.as_str(), id) {
            assert(tasks@[i as int].id@ == id@);
            return true;
        }
        i += 1;
    }
    false
}

fn waits(tasks: &Vec<TaskRecord>, id: &str) -> (r: bool)
    ensures
        r == has_queued(tasks@, id@),
{
    let mut i: usize = 0;
    while i < tasks.len()
        invariant
            i <= tasks@.len(),
            forall|k: int|
                0 <= k < i ==> !((#[trigger] tasks@[k]).id@ == id@ && tasks@[k].status is Queued),
        decreases tasks@.len() - i,
    {
        if same_text(tasks[i].id.as_str(), id) && tasks[i].status == TaskStatus::Queued {
            assert(tasks@[i as int].id@ == id@);
            return true;
        }
        i += 1;
    }
    false
}

/// Adds a task that was read back to the list.
pub fn insert_loaded_task(tasks: &mut Vec<TaskRecord>, task: TaskRecord, path: &str) -> (r: Result<
    (),
    Failure,
>)
    ensures
        if has_task(old(tasks)@, task.id@) {
            (r matches Err(e) && e@ == "Duplicate persisted task id '"@ + task.id@
                + "' while loading "@ + path@) && final(tasks)@ == old(tasks)@
        } else {
            r is Ok && final(tasks)@ == old(tasks)@.push(task)
        },
{
    if knows_task(tasks, task.id.as_str()) {
        let mut message = join3(
            "Duplicate persisted task id '",
            task.id.as_str(),
            "' while loading ",
        );
        message.append(path);
        return Err(Failure { message });
    }
    tasks.push(task);
    Ok(())
}

// The queue ------------------------------------------------------------------
/// The stored queue without what does not wait any more.
pub open spec fn still_waiting(tasks: Seq<TaskRecord>, queue: Seq<Seq<char>>) -> Seq<Seq<char>> {
    queue.filter(|id: Seq<char>| has_queued(tasks, id))
}

/// The tasks that wait and are not in the queue.
pub open spec fn forgotten(tasks: Seq<TaskRecord>, queue: Seq<Seq<char>>) -> Seq<Seq<char>>
    decreases tasks.len(),
{
    if tasks.len() == 0 {
        Seq::empty()
    } else {
        let before = forgotten(tasks.drop_last(), queue);
        let task = tasks.last();
        if task.status is Queued && !queue.contains(task.id@) {
            before.push(task.id@)
        } else {
            before
        }
    }
}

/// The order of identifiers.
pub open spec fn id_order() -> spec_fn(Seq<char>, Seq<char>) -> bool {
    |a: Seq<char>, b: Seq<char>| lex_less(a, b)
}

/// The queue after a restart: what still waits, in the order that it had, then what
/// was forgotten, in the order of identifiers.
pub open spec fn is_rebuilt_queue(
    tasks: Seq<TaskRecord>,
    stored: Seq<Seq<char>>,
    queue: Seq<Seq<char>>,
) -> bool {
    let kept = still_waiting(tasks, stored);
    exists|extra: Seq<Seq<char>>| #[trigger]
        is_sorted_from(forgotten(tasks, kept), extra, id_order()) && queue == kept + extra
}

fn keep_waiting(tasks: &Vec<TaskRecord>, queue: Vec<String>) -> (r: Vec<String>)
    ensures
        texts(r@) == still_waiting(tasks@, texts(queue@)),
{
    let ghost all = texts(queue@);
    let ghost keep = |id: Seq<char>| has_queued(tasks@, id);
    let mut rest = queue;
    let mut out: Vec<String> = Vec::new();
    proof {
        reveal(Seq::filter);
        assert(all.take(0).filter(keep) =~= Seq::empty());
        assert(texts(out@) =~= Seq::empty());
    }
    while rest.len() > 0
        invariant
            rest@.len() <= all.len(),
            texts(rest@) == all.skip(all.len() - rest@.len()),
            keep == (|id: Seq<char>| has_queued(tasks@, id)),
            texts(out@) == all.take(all.len() - rest@.len()).filter(keep),
        decreases rest@.len(),
    {
        let ghost done = all.len() - rest@.len();
        let ghost before = rest@;
        let id = rest.remove(0);
        proof {
            reveal(Seq::filter);
            assert(texts(before)[0] == id@);
            assert(all[done] == id@);
            assert(all.take(done + 1).drop_last() =~= all.take(done));
            assert(rest@ =~= before.drop_first());
            assert(texts(rest@) =~= all.skip(done + 1)) by {
                assert(texts(before).drop_first() =~= texts(rest@));
                assert(all.skip(done).drop_first() =~= all.skip(done + 1));
            }
        }
        if waits(tasks, id.as_str()) {
            let ghost old_out = out@;
            out.push(id);
            assert(texts(out@) =~= texts(old_out).push(all[done]));
        }
    }
    assert(all.take(all.len() as int) =~= all);
    out
}

fn find_forgotten(tasks: &Vec<TaskRecord>, queue: &Vec<String>) -> (r: Vec<String>)
    ensures
        texts(r@) == forgotten(tasks@, texts(queue@)),
{
    let mut out: Vec<String> = Vec::new();
    let mut i: usize = 0;
    assert(tasks@.take(0) =~= Seq::empty());
    assert(texts(out@) =~= Seq::empty());
    while i < tasks.len()
        invariant
            i <= tasks@.len(),
            texts(out@) == forgotten(tasks@.take(i as int), texts(queue@)),
        decreases tasks@.len() - i,
    {
        proof {
            assert(tasks@.take(i + 1).drop_last() =~= tasks@.take(i as int));
        }
        if tasks[i].status == TaskStatus::Queued && !contains_text(queue, tasks[i].id.as_str()) {
            let ghost before = out@;
            out.push(copy_text(tasks[i].id.as_str()));
            assert(texts(out@) =~= texts(before).push(tasks@[i as int].id@));
        }
        i += 1;
    }
    assert(tasks@.take(tasks@.len() as int) =~= tasks@);
    out
}

/// The order of identifiers, on strings.
spec fn string_order() -> spec_fn(String, String) -> bool {
    |a: String, b: String| lex_less(a@, b@)
}

/// Sorts identifiers.
pub fn sort_ids(list: Vec<String>) -> (r: Vec<String>)
    ensures
        is_sorted_from(texts(list@), texts(r@), id_order()),
{
    let less = |a: &String, b: &String| -> (x: bool)
        ensures
            x == lex_less(a@, b@),
        { text_less(a.as_str(), b.as_str()) };
    proof {
        let before = string_order();
        assert forall|a: String, b: String| #[trigger] before(a, b) implies !before(b, a) by {
            lex_less_is_a_strict_order(a@, b@, a@);
        }
        assert forall|a: String, b: String, c: String|
            #![trigger before(a, c), before(a, b)]
            before(a, c) implies before(a, b) || before(b, c) by {
            lex_less_is_a_strict_order(a@, b@, c@);
            lex_less_is_a_strict_order(b@, a@, c@);
            lex_less_is_a_strict_order(a@, c@, b@);
        }
        assert(strict_weak(before));
    }
    let ghost given = list@;
    let out = sort_stable(list, less, Ghost(string_order()));
    proof {
        let p = choose|p: Seq<int>| #[trigger]
            arranges(p, given, out@, string_order());
        assert(arranges(p, texts(given), texts(out@), id_order()));
    }
    out
}

/// The queue after a restart.
pub fn rebuild_queue(tasks: &Vec<TaskRecord>, stored: Vec<String>) -> (r: Vec<String>)
    ensures
        is_rebuilt_queue(tasks@, texts(stored@), texts(r@)),
{
    let mut queue = keep_waiting(tasks, stored);
    let ghost kept = texts(queue@);
    let mut extra = sort_ids(find_forgotten(tasks, &queue));
    let ghost more = texts(extra@);
    assert(is_sorted_from(forgotten(tasks@, kept), more, id_order()));
    let ghost a = queue@;
    let ghost b = extra@;
    queue.append(&mut extra);
    assert(texts(queue@) =~= kept + more) by {
        assert(queue@ =~= a + b);
    }
    queue
}

// Laws -----------------------------------------------------------------------
/// After a restart no task runs, and no task that ran is queued again.
pub proof fn nothing_runs_after_a_restart(
    old: TaskRecord,
    now: Timestamp,
    new: TaskRecord,
    changed: bool,
)
    requires
        is_recovered(old, now, new, changed),
    ensures
        new.status !is Running,
        old.status is Running ==> new.status is Failed && new.error is Some,
        new.status is Queued ==> old.status is Queued,
        new.id == old.id,
        new.idempotency_key == old.idempotency_key,
        stored_task_mode(new.mode@) == Some(new.mode@),
        !changed ==> new == old,
{
    crate::automation_laws::canonical_modes_are_stable(old.mode@);
    crate::automation_laws::canonical_modes_are_stable("agent"@);
    lemma_same_modes(old.mode@);
    lemma_same_modes(new.mode@);
    lemma_same_modes("agent"@);
    if stored_task_mode(old.mode@) is None {
        assert(crate::automation::canonical_mode("agent"@) == Some("agent"@)) by {
            lemma_agent_is_a_mode();
        }
    }
}

proof fn lemma_same_modes(mode: Seq<char>)
    ensures
        stored_task_mode(mode) == crate::automation::canonical_mode(mode),
{
}

proof fn lemma_agent_is_a_mode()
    ensures
        crate::automation::canonical_mode("agent"@) == Some("agent"@),
{
    reveal_strlit("agent");
    let word = "agent"@;
    assert(crate::text::trimmed(word) == word);
    assert(crate::text::lower(word) =~= word);
}

proof fn lemma_forgotten(tasks: Seq<TaskRecord>, queue: Seq<Seq<char>>)
    ensures
        forall|id: Seq<char>| #[trigger]
            forgotten(tasks, queue).contains(id) <==> has_queued(tasks, id) && !queue.contains(id),
    decreases tasks.len(),
{
    if tasks.len() > 0 {
        let init = tasks.drop_last();
        let last = tasks.last();
        lemma_forgotten(init, queue);
        let before = forgotten(init, queue);
        let all = forgotten(tasks, queue);
        assert forall|id: Seq<char>| #[trigger]
            all.contains(id) <==> has_queued(tasks, id) && !queue.contains(id) by {
            if has_queued(init, id) {
                let i = choose|i: int|
                    0 <= i < init.len() && (#[trigger] init[i]).id@ == id && init[i].status is Queued;
                assert(tasks[i] == init[i]);
            }
            if has_queued(tasks, id) {
                let i = choose|i: int|
                    0 <= i < tasks.len() && (#[trigger] tasks[i]).id@ == id
                        && tasks[i].status is Queued;
                if i < init.len() {
                    assert(init[i] == tasks[i]);
                }
            }
            if last.status is Queued && !queue.contains(last.id@) {
                assert(all == before.push(last.id@));
                if all.contains(id) {
                    let k = choose|k: int| 0 <= k < all.len() && all[k] == id;
                    if k < before.len() {
                        assert(before[k] == id);
                    } else {
                        assert(tasks[tasks.len() - 1].id@ == id);
                    }
                }
                if before.contains(id) {
                    let k = choose|k: int| 0 <= k < before.len() && before[k] == id;
                    assert(all[k] == id);
                }
                if id == last.id@ {
                    assert(all[before.len() as int] == id);
                }
            }
        }
    }
}

/// After a restart the queue holds just the tasks that wait.
pub proof fn the_queue_holds_what_waits(
    tasks: Seq<TaskRecord>,
    stored: Seq<Seq<char>>,
    queue: Seq<Seq<char>>,
)
    requires
        is_rebuilt_queue(tasks, stored, queue),
    ensures
        forall|id: Seq<char>| #[trigger] queue.contains(id) <==> has_queued(tasks, id),
{
    let kept = still_waiting(tasks, stored);
    let extra = choose|extra: Seq<Seq<char>>| #[trigger]
        is_sorted_from(forgotten(tasks, kept), extra, id_order()) && queue == kept + extra;
    lemma_forgotten(tasks, kept);
    sorting_keeps_the_items(forgotten(tasks, kept), extra, id_order());
    let keep = |id: Seq<char>| has_queued(tasks, id);
    assert forall|id: Seq<char>| #[trigger] queue.contains(id) <==> has_queued(tasks, id) by {
        if queue.contains(id) {
            let k = choose|k: int| 0 <= k < queue.len() && queue[k] == id;
            if k < kept.len() {
                stored.lemma_filter_pred(keep, k);
                assert(kept[k] == id);
            } else {
                assert(extra[k - kept.len()] == id);
                assert(forgotten(tasks, kept).contains(id));
            }
        }
        if has_queued(tasks, id) {
            if kept.contains(id) {
                let k = choose|k: int| 0 <= k < kept.len() && kept[k] == id;
                assert(queue[k] == id);
            } else {
                assert(forgotten(tasks, kept).contains(id));
                assert(extra.contains(id));
                let k = choose|k: int| 0 <= k < extra.len() && extra[k] == id;
                assert(queue[kept.len() + k] == id);
            }
        }
    }
}

proof fn lemma_filter_differs(ids: Seq<Seq<char>>, keep: spec_fn(Seq<char>) -> bool)
    requires
        ids.no_duplicates(),
    ensures
        ids.filter(keep).no_duplicates(),
        forall|id: Seq<char>| #[trigger] ids.filter(keep).contains(id) ==> ids.contains(id),
    decreases ids.len(),
{
    reveal(Seq::filter);
    if ids.len() > 0 {
        let init = ids.drop_last();
        lemma_filter_differs(init, keep);
        let before = init.filter(keep);
        let all = ids.filter(keep);
        if init.contains(ids.last()) {
            let k = choose|k: int| 0 <= k < init.len() && init[k] == ids.last();
            assert(ids[k] == ids[ids.len() - 1]);
        }
        assert forall|i: int, j: int| 0 <= i < all.len() && 0 <= j < all.len() && i != j implies all[i]
            != all[j] by {
            let n = before.len() as int;
            if i < n && j < n {
                assert(before[i] != before[j]);
            } else if i < n {
                assert(before.contains(before[i]));
            } else if j < n {
                assert(before.contains(before[j]));
            }
        }
        assert forall|id: Seq<char>| #[trigger] all.contains(id) implies ids.contains(id) by {
            let k = choose|k: int| 0 <= k < all.len() && all[k] == id;
            if k < before.len() {
                assert(before[k] == id);
                assert(before.contains(id));
                assert(init.contains(id));
                let l = choose|l: int| 0 <= l < init.len() && init[l] == id;
                assert(ids[l] == id);
            } else {
                assert(ids[ids.len() - 1] == id);
            }
        }
    }
}

/// After a restart no task stands in the queue twice, unless it did in the stored one.
pub proof fn nothing_is_queued_twice(
    tasks: Seq<TaskRecord>,
    stored: Seq<Seq<char>>,
    queue: Seq<Seq<char>>,
)
    requires
        ids_differ(tasks),
        stored.no_duplicates(),
        is_rebuilt_queue(tasks, stored, queue),
    ensures
        queue.no_duplicates(),
{
    let kept = still_waiting(tasks, stored);
    let given = forgotten(tasks, kept);
    let extra = choose|extra: Seq<Seq<char>>| #[trigger]
        is_sorted_from(given, extra, id_order()) && queue == kept + extra;
    lemma_filter_differs(stored, |id: Seq<char>| has_queued(tasks, id));
    lemma_forgotten(tasks, kept);
    lemma_forgotten_differ(tasks, kept);
    lemma_ids_in_order(given, extra);
    sorting_keeps_the_items(given, extra, id_order());
    let n = kept.len() as int;
    assert forall|i: int, j: int| 0 <= i < j < queue.len() implies queue[i] != queue[j] by {
        if j < n {
            assert(kept[i] != kept[j]);
        } else if i >= n {
            assert(id_order()(extra[i - n], extra[j - n]));
            lex_less_is_a_strict_order(extra[i - n], extra[j - n], extra[i - n]);
        } else {
            assert(extra.contains(extra[j - n]));
            assert(given.contains(extra[j - n]));
            assert(kept.contains(kept[i]));
        }
    }
}

/// What was put right is right: reading it back once more leaves it as it is.
pub proof fn recovery_is_done_once(
    old: TaskRecord,
    now: Timestamp,
    new: TaskRecord,
    changed: bool,
    later: Timestamp,
    again: TaskRecord,
    changed_again: bool,
)
    requires
        is_recovered(old, now, new, changed),
        is_recovered(new, later, again, changed_again),
    ensures
        again == new,
        !changed_again,
{
    nothing_runs_after_a_restart(old, now, new, changed);
}

proof fn lemma_ids_in_order(given: Seq<Seq<char>>, sorted: Seq<Seq<char>>)
    requires
        is_sorted_from(given, sorted, id_order()),
        given.no_duplicates(),
    ensures
        forall|i: int, j: int|
            0 <= i < j < sorted.len() ==> id_order()(#[trigger] sorted[i], #[trigger] sorted[j]),
{
    let p = choose|p: Seq<int>| #[trigger]
        arranges(p, given, sorted, id_order());
    assert forall|i: int, j: int| 0 <= i < j < sorted.len() implies id_order()(
        #[trigger] sorted[i],
        #[trigger] sorted[j],
    ) by {
        assert(p[i] != p[j]);
        assert(given[p[i]] != given[p[j]]);
        lex_less_is_a_strict_order(sorted[i], sorted[j], sorted[i]);
    }
}

proof fn lemma_forgotten_differ(tasks: Seq<TaskRecord>, queue: Seq<Seq<char>>)
    requires
        ids_differ(tasks),
    ensures
        forgotten(tasks, queue).no_duplicates(),
    decreases tasks.len(),
{
    if tasks.len() > 0 {
        let init = tasks.drop_last();
        assert forall|i: int, j: int| 0 <= i < j < init.len() implies (#[trigger] init[i]).id@ != (
        #[trigger] init[j]).id@ by {
            assert(tasks[i].id@ != tasks[j].id@);
        }
        lemma_forgotten_differ(init, queue);
        lemma_forgotten(init, queue);
        let before = forgotten(init, queue);
        let last = tasks.last();
        if before.contains(last.id@) {
            assert(has_queued(init, last.id@));
            let i = choose|i: int|
                0 <= i < init.len() && (#[trigger] init[i]).id@ == last.id@
                    && init[i].status is Queued;
            assert(tasks[i].id@ != tasks[tasks.len() - 1].id@);
        }
        let all = forgotten(tasks, queue);
        assert forall|i: int, j: int| 0 <= i < all.len() && 0 <= j < all.len() && i != j implies all[i]
            != all[j] by {
            let n = before.len() as int;
            if i < n && j < n {
                assert(before[i] != before[j]);
            } else if i < n {
                assert(before.contains(before[i]));
            } else if j < n {
                assert(before.contains(before[j]));
            }
        }
    }
}

/// Tasks and a stored queue come to one queue, in whatever order the tasks were read.
pub proof fn a_queue_is_rebuilt_in_one_way(
    tasks: Seq<TaskRecord>,
    others: Seq<TaskRecord>,
    stored: Seq<Seq<char>>,
    a: Seq<Seq<char>>,
    b: Seq<Seq<char>>,
)
    requires
        ids_differ(tasks),
        ids_differ(others),
        forall|id: Seq<char>| #[trigger] has_queued(tasks, id) == has_queued(others, id),
        is_rebuilt_queue(tasks, stored, a),
        is_rebuilt_queue(others, stored, b),
    ensures
        a == b,
{
    let kept = still_waiting(tasks, stored);
    assert(kept == still_waiting(others, stored)) by {
        assert((|id: Seq<char>| has_queued(tasks, id)) =~= (|id: Seq<char>| has_queued(others, id)));
    }
    let (left, right) = (forgotten(tasks, kept), forgotten(others, kept));
    let x = choose|extra: Seq<Seq<char>>| #[trigger]
        is_sorted_from(left, extra, id_order()) && a == kept + extra;
    let y = choose|extra: Seq<Seq<char>>| #[trigger]
        is_sorted_from(right, extra, id_order()) && b == kept + extra;
    lemma_forgotten(tasks, kept);
    lemma_forgotten(others, kept);
    lemma_forgotten_differ(tasks, kept);
    lemma_forgotten_differ(others, kept);
    lemma_ids_in_order(left, x);
    lemma_ids_in_order(right, y);
    sorting_keeps_the_items(left, x, id_order());
    sorting_keeps_the_items(right, y, id_order());
    assert forall|p: Seq<char>, q: Seq<char>| #[trigger] id_order()(p, q) implies !id_order()(
        q,
        p,
    ) by {
        lex_less_is_a_strict_order(p, q, p);
    }
    assert forall|id: Seq<char>| #[trigger] x.contains(id) <==> y.contains(id) by {
        assert(x.contains(id) <==> left.contains(id));
        assert(y.contains(id) <==> right.contains(id));
        assert(has_queued(tasks, id) == has_queued(others, id));
    }
    items_in_order_have_one_arrangement(x, y, id_order());
}

proof fn lemma_filter_all(ids: Seq<Seq<char>>, keep: spec_fn(Seq<char>) -> bool)
    requires
        forall|i: int| 0 <= i < ids.len() ==> keep(#[trigger] ids[i]),
    ensures
        ids.filter(keep) == ids,
    decreases ids.len(),
{
    reveal(Seq::filter);
    if ids.len() > 0 {
        let init = ids.drop_last();
        assert forall|i: int| 0 <= i < init.len() implies keep(#[trigger] init[i]) by {
            assert(keep(ids[i]));
        }
        lemma_filter_all(init, keep);
        assert(keep(ids[ids.len() - 1]));
        assert(ids =~= init.push(ids.last()));
    }
}

/// A queue that was rebuilt stays as it is when it is stored and read back.
pub proof fn rebuilt_queues_are_stable(
    tasks: Seq<TaskRecord>,
    stored: Seq<Seq<char>>,
    queue: Seq<Seq<char>>,
)
    requires
        is_rebuilt_queue(tasks, stored, queue),
    ensures
        is_rebuilt_queue(tasks, queue, queue),
{
    the_queue_holds_what_waits(tasks, stored, queue);
    let keep = |id: Seq<char>| has_queued(tasks, id);
    assert forall|i: int| 0 <= i < queue.len() implies keep(#[trigger] queue[i]) by {
        assert(queue.contains(queue[i]));
    }
    lemma_filter_all(queue, keep);
    assert(still_waiting(tasks, queue) == queue);
    lemma_forgotten(tasks, queue);
    let left = forgotten(tasks, queue);
    if left.len() > 0 {
        assert(left.contains(left[0]));
    }
    let none: Seq<Seq<char>> = Seq::empty();
    assert(arranges(Seq::<int>::empty(), left, none, id_order()));
    assert(is_sorted_from(left, none, id_order()));
    assert(queue =~= queue + none);
}

} // verus!
