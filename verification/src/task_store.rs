//! The tasks that a manager knows, the queue, and the keys that tasks were queued
//! under.
//!
//! A change is made in two steps. First the new record is worked out from a copy of
//! the old one; then, once it has been stored, it takes the old one's place here. A
//! record that could not be stored changes nothing.
use vstd::prelude::*;
use vstd::string::*;

use crate::failure::{failure, Failure};
use crate::ids::{is_hex, is_hyphen_place, is_uuid_text, new_uuid};
use crate::order::{is_sorted_from, sort_stable};
use crate::run_index::limited;
use crate::storage_id::{ensure_safe_storage_id, storage_id_fault};
use crate::task::{
    approval_of, is_summary_of, is_task_mode, normalize_task_mode, NewTaskRequest, TaskChecklistState,
    TaskCounts, TaskManagerConfig, TaskRecord, TaskStatus, TaskSummary, TaskTimelineEntry,
    CURRENT_TASK_SCHEMA_VERSION,
};
use crate::task_events::CancelEffect;
use crate::task_recovery::{
    has_task, id_order, is_rebuilt_queue, knows_task, rebuild_queue, sort_ids,
};
use crate::task_updates::is_entry;
use crate::text::{
    contains_text, copy_text, dec, decimal, join2, join3, lemma_first_index_is, lower, same_text,
    split_on, starts_with, starts_with_seq, text_opt, texts, trim, trimmed,
};
use crate::time::Timestamp;

verus! {

/// How often a fresh identifier is tried for.
pub const MAX_TASK_ID_GENERATION_ATTEMPTS: usize = 32;

/// A key with the task that was queued under it.
#[derive(Debug)]
pub struct KeyedTask {
    pub key: String,
    pub task_id: String,
}

/// What a manager knows of its tasks.
#[derive(Debug)]
pub struct ManagerState {
    pub tasks: Vec<TaskRecord>,
    pub queue: Vec<String>,
    pub idempotency_index: Vec<KeyedTask>,
    /// The tasks that are being run here.
    pub running: Vec<String>,
}

/// What a manager knows, without its representation.
pub struct ManagerModel {
    pub tasks: Seq<TaskRecord>,
    pub queue: Seq<Seq<char>>,
    pub keys: Seq<(Seq<char>, Seq<char>)>,
    pub running: Seq<Seq<char>>,
}

/// The keys with their tasks.
pub open spec fn keyed(list: Seq<KeyedTask>) -> Seq<(Seq<char>, Seq<char>)> {
    list.map_values(|k: KeyedTask| (k.key@, k.task_id@))
}

impl View for ManagerState {
    type V = ManagerModel;

    open spec fn view(&self) -> ManagerModel {
        ManagerModel {
            tasks: self.tasks@,
            queue: texts(self.queue@),
            keys: keyed(self.idempotency_index@),
            running: texts(self.running@),
        }
    }
}

/// Where a task stands in the list, or how long the list is.
pub open spec fn task_index(tasks: Seq<TaskRecord>, id: Seq<char>) -> int
    decreases tasks.len(),
{
    if tasks.len() == 0 || tasks[0].id@ == id {
        0
    } else {
        1 + task_index(tasks.drop_first(), id)
    }
}

/// The task with identifier `id`.
pub open spec fn task_of(tasks: Seq<TaskRecord>, id: Seq<char>) -> Option<TaskRecord> {
    let k = task_index(tasks, id);
    if k < tasks.len() {
        Some(tasks[k])
    } else {
        None
    }
}

/// What is known of the place of a task.
pub proof fn lemma_task_index(tasks: Seq<TaskRecord>, id: Seq<char>)
    ensures
        0 <= task_index(tasks, id) <= tasks.len(),
        forall|i: int| 0 <= i < task_index(tasks, id) ==> (#[trigger] tasks[i]).id@ != id,
        task_index(tasks, id) < tasks.len() ==> tasks[task_index(tasks, id)].id@ == id,
        task_index(tasks, id) < tasks.len() <==> has_task(tasks, id),
    decreases tasks.len(),
{
    if tasks.len() > 0 && tasks[0].id@ != id {
        let rest = tasks.drop_first();
        lemma_task_index(rest, id);
        let k = task_index(rest, id);
        assert forall|i: int| 0 <= i < 1 + k implies (#[trigger] tasks[i]).id@ != id by {
            if i > 0 {
                assert(rest[i - 1] == tasks[i]);
            }
        }
        if has_task(tasks, id) {
            let i = choose|i: int| 0 <= i < tasks.len() && (#[trigger] tasks[i]).id@ == id;
            assert(rest[i - 1] == tasks[i]);
        }
    } else if tasks.len() > 0 {
        assert(tasks[0].id@ == id);
    }
}

/// The list with `record` in the place of the task with its identifier, or at the end.
pub open spec fn with_task(tasks: Seq<TaskRecord>, record: TaskRecord) -> Seq<TaskRecord> {
    let k = task_index(tasks, record.id@);
    if k < tasks.len() {
        tasks.update(k, record)
    } else {
        tasks.push(record)
    }
}

/// Every text but `id`.
pub open spec fn other_than(id: Seq<char>) -> spec_fn(Seq<char>) -> bool {
    |x: Seq<char>| x != id
}

/// Every task but the one with identifier `id`.
pub open spec fn other_task(id: Seq<char>) -> spec_fn(TaskRecord) -> bool {
    |t: TaskRecord| t.id@ != id
}

/// Every key but those that lead to `id`.
pub open spec fn other_key(id: Seq<char>) -> spec_fn((Seq<char>, Seq<char>)) -> bool {
    |k: (Seq<char>, Seq<char>)| k.1 != id
}

/// The list without `id`.
pub open spec fn without_id(list: Seq<Seq<char>>, id: Seq<char>) -> Seq<Seq<char>> {
    list.filter(other_than(id))
}

/// The task that was queued under `key`.
pub open spec fn task_under(keys: Seq<(Seq<char>, Seq<char>)>, key: Seq<char>) -> Option<Seq<char>>
    decreases keys.len(),
{
    if keys.len() == 0 {
        None
    } else if keys[0].0 == key {
        Some(keys[0].1)
    } else {
        task_under(keys.drop_first(), key)
    }
}

fn find_task(tasks: &Vec<TaskRecord>, id: &str) -> (r: usize)
    ensures
        r as int == task_index(tasks@, id@),
        r <= tasks@.len(),
{
    let mut i: usize = 0;
    assert(tasks@.skip(0) =~= tasks@);
    while i < tasks.len()
        invariant
            i <= tasks@.len(),
            task_index(tasks@, id@) == i + task_index(tasks@.skip(i as int), id@),
        decreases tasks@.len() - i,
    {
        assert(tasks@.skip(i as int).drop_first() =~= tasks@.skip(i + 1));
        if same_text(tasks[i].id.as_str(), id) {
            return i;
        }
        i += 1;
    }
    i
}

fn drop_id(list: &mut Vec<String>, id: &str)
    ensures
        texts(final(list)@) == without_id(texts(old(list)@), id@),
{
    let ghost all = texts(list@);
    let ghost keep = other_than(id@);
    let mut rest: Vec<String> = Vec::new();
    std::mem::swap(list, &mut rest);
    proof {
        reveal(Seq::filter);
        assert(all.take(0).filter(keep) =~= Seq::empty());
        assert(texts(list@) =~= Seq::empty());
    }
    while rest.len() > 0
        invariant
            rest@.len() <= all.len(),
            texts(rest@) == all.skip(all.len() - rest@.len()),
            keep == other_than(id@),
            texts(list@) == all.take(all.len() - rest@.len()).filter(keep),
        decreases rest@.len(),
    {
        let ghost done = all.len() - rest@.len();
        let ghost before = rest@;
        let first = rest.remove(0);
        proof {
            reveal(Seq::filter);
            assert(texts(before)[0] == first@);
            assert(all[done] == first@);
            assert(all.take(done + 1).drop_last() =~= all.take(done));
            assert(rest@ =~= before.drop_first());
            assert(texts(rest@) =~= all.skip(done + 1)) by {
                assert(texts(before).drop_first() =~= texts(rest@));
                assert(all.skip(done).drop_first() =~= all.skip(done + 1));
            }
        }
        if !same_text(first.as_str(), id) {
            let ghost kept = list@;
            list.push(first);
            assert(texts(list@) =~= texts(kept).push(all[done]));
        }
    }
    assert(all.take(all.len() as int) =~= all);
}

// Looking up -----------------------------------------------------------------
/// The identifiers that begin with `prefix`.
pub open spec fn matching_ids(tasks: Seq<TaskRecord>, prefix: Seq<char>) -> Seq<Seq<char>>
    decreases tasks.len(),
{
    if tasks.len() == 0 {
        Seq::empty()
    } else {
        let before = matching_ids(tasks.drop_last(), prefix);
        if starts_with_seq(tasks.last().id@, prefix) {
            before.push(tasks.last().id@)
        } else {
            before
        }
    }
}

pub open spec fn task_not_found(id: Seq<char>) -> Seq<char> {
    "Task not found: "@ + id
}

/// What [`ManagerState::resolve_task_id`] makes of a full or shortened identifier.
pub open spec fn resolution(tasks: Seq<TaskRecord>, id: Seq<char>) -> Result<Seq<char>, Seq<char>> {
    let found = matching_ids(tasks, id);
    if has_task(tasks, id) {
        Ok(id)
    } else if found.len() == 0 {
        Err(task_not_found(id))
    } else if found.len() == 1 {
        Ok(found[0])
    } else {
        Err(
            "Ambiguous task prefix '"@ + id + "': matches "@ + dec(found.len()) + " tasks"@,
        )
    }
}

/// How many of the tasks have this status.
pub open spec fn count_of(tasks: Seq<TaskRecord>, status: TaskStatus) -> nat
    decreases tasks.len(),
{
    if tasks.len() == 0 {
        0
    } else {
        count_of(tasks.drop_last(), status) + if tasks.last().status == status {
            1nat
        } else {
            0nat
        }
    }
}

proof fn lemma_count_of(tasks: Seq<TaskRecord>, status: TaskStatus)
    ensures
        count_of(tasks, status) <= tasks.len(),
    decreases tasks.len(),
{
    if tasks.len() > 0 {
        lemma_count_of(tasks.drop_last(), status);
    }
}

/// The order of a listing: newest first.
pub open spec fn newer_task() -> spec_fn(TaskSummary, TaskSummary) -> bool {
    |a: TaskSummary, b: TaskSummary| b.created_at.before(a.created_at)
}

/// The short views of the tasks, in order.
pub open spec fn are_summaries(list: Seq<TaskSummary>, tasks: Seq<TaskRecord>) -> bool {
    &&& list.len() == tasks.len()
    &&& forall|i: int| 0 <= i < tasks.len() ==> is_summary_of(#[trigger] list[i], tasks[i])
}

impl ManagerState {
    /// The task with identifier `id`.
    pub fn get(&self, id: &str) -> (r: Option<&TaskRecord>)
        ensures
            match r {
                Some(task) => task_of(self@.tasks, id@) == Some(*task),
                None => task_of(self@.tasks, id@) is None,
            },
    {
        let k: usize = find_task(&self.tasks, id);
        if k < self.tasks.len() {
            Some(&self.tasks[k])
        } else {
            None
        }
    }

    /// The full identifier that a full or shortened identifier stands for.
    pub fn resolve_task_id(&self, id_or_prefix: &str) -> (r: Result<String, Failure>)
        ensures
            match resolution(self@.tasks, id_or_prefix@) {
                Ok(id) => r matches Ok(s) && s@ == id,
                Err(words) => r matches Err(e) && e@ == words,
            },
    {
        if knows_task(&self.tasks, id_or_prefix) {
            return Ok(copy_text(id_or_prefix));
        }
        let mut found: Vec<String> = Vec::new();
        let mut i: usize = 0;
        assert(self.tasks@.take(0) =~= Seq::empty());
        assert(texts(found@) =~= Seq::empty());
        while i < self.tasks.len()
            invariant
                i <= self.tasks@.len(),
                texts(found@) == matching_ids(self.tasks@.take(i as int), id_or_prefix@),
            decreases self.tasks@.len() - i,
        {
            proof {
                assert(self.tasks@.take(i + 1).drop_last() =~= self.tasks@.take(i as int));
            }
            if starts_with(self.tasks[i].id.as_str(), id_or_prefix) {
                let ghost before = found@;
                found.push(copy_text(self.tasks[i].id.as_str()));
                assert(texts(found@) =~= texts(before).push(self.tasks@[i as int].id@));
            }
            i += 1;
        }
        assert(self.tasks@.take(self.tasks@.len() as int) =~= self.tasks@);
        assert(texts(found@).len() == found@.len());
        if found.len() == 0 {
            return Err(Failure { message: join2("Task not found: ", id_or_prefix) });
        }
        if found.len() == 1 {
            assert(texts(found@)[0] == found@[0]@);
            return Ok(copy_text(found[0].as_str()));
        }
        let mut message = join3("Ambiguous task prefix '", id_or_prefix, "': matches ");
        message.append(decimal(found.len() as u64).as_str());
        message.append(" tasks");
        Err(Failure { message })
    }

    /// The task that a full or shortened identifier stands for.
    pub fn get_task(&self, id_or_prefix: &str) -> (r: Result<&TaskRecord, Failure>)
        ensures
            match resolution(self@.tasks, id_or_prefix@) {
                Ok(id) => match task_of(self@.tasks, id) {
                    Some(task) => r matches Ok(t) && *t == task,
                    None => r matches Err(e) && e@ == task_not_found(id_or_prefix@),
                },
                Err(words) => r matches Err(e) && e@ == words,
            },
    {
        match self.resolve_task_id(id_or_prefix) {
            Err(e) => Err(e),
            Ok(id) => match self.get(id.as_str()) {
                Some(task) => Ok(task),
                None => Err(Failure { message: join2("Task not found: ", id_or_prefix) }),
            },
        }
    }

    /// How many tasks there are.
    pub fn task_count(&self) -> (r: usize)
        ensures
            r == self@.tasks.len(),
    {
        self.tasks.len()
    }

    /// How many tasks have each status.
    pub fn counts(&self) -> (r: TaskCounts)
        ensures
            r.queued == count_of(self@.tasks, TaskStatus::Queued),
            r.running == count_of(self@.tasks, TaskStatus::Running),
            r.completed == count_of(self@.tasks, TaskStatus::Completed),
            r.failed == count_of(self@.tasks, TaskStatus::Failed),
            r.canceled == count_of(self@.tasks, TaskStatus::Canceled),
    {
        let mut counts = TaskCounts::default();
        let mut i: usize = 0;
        let ghost tasks = self.tasks@;
        assert(tasks.take(0) =~= Seq::empty());
        while i < self.tasks.len()
            invariant
                i <= self.tasks@.len(),
                tasks == self.tasks@,
                counts.queued == count_of(tasks.take(i as int), TaskStatus::Queued),
                counts.running == count_of(tasks.take(i as int), TaskStatus::Running),
                counts.completed == count_of(tasks.take(i as int), TaskStatus::Completed),
                counts.failed == count_of(tasks.take(i as int), TaskStatus::Failed),
                counts.canceled == count_of(tasks.take(i as int), TaskStatus::Canceled),
            decreases self.tasks@.len() - i,
        {
            proof {
                assert(tasks.take(i + 1).drop_last() =~= tasks.take(i as int));
                lemma_count_of(tasks.take(i as int), TaskStatus::Queued);
                lemma_count_of(tasks.take(i as int), TaskStatus::Running);
                lemma_count_of(tasks.take(i as int), TaskStatus::Completed);
                lemma_count_of(tasks.take(i as int), TaskStatus::Failed);
                lemma_count_of(tasks.take(i as int), TaskStatus::Canceled);
            }
            match self.tasks[i].status {
                TaskStatus::Queued => {
                    counts.queued = counts.queued + 1;
                },
                TaskStatus::Running => {
                    counts.running = counts.running + 1;
                },
                TaskStatus::Completed => {
                    counts.completed = counts.completed + 1;
                },
                TaskStatus::Failed => {
                    counts.failed = counts.failed + 1;
                },
                TaskStatus::Canceled => {
                    counts.canceled = counts.canceled + 1;
                },
            }
            i += 1;
        }
        assert(tasks.take(tasks.len() as int) =~= tasks);
        counts
    }

    /// The short views of the tasks, newest first.
    pub fn list_tasks(&self, limit: Option<usize>) -> (r: Vec<TaskSummary>)
        ensures
            exists|list: Seq<TaskSummary>, sorted: Seq<TaskSummary>|
                #![trigger are_summaries(list, self@.tasks), is_sorted_from(list, sorted, newer_task())]
                are_summaries(list, self@.tasks) && is_sorted_from(list, sorted, newer_task())
                    && r@ == limited(sorted, limit),
    {
        let mut list: Vec<TaskSummary> = Vec::new();
        let mut i: usize = 0;
        while i < self.tasks.len()
            invariant
                i <= self.tasks@.len(),
                list@.len() == i,
                forall|k: int| 0 <= k < i ==> is_summary_of(#[trigger] list@[k], self.tasks@[k]),
            decreases self.tasks@.len() - i,
        {
            list.push(TaskSummary::of(&self.tasks[i]));
            i += 1;
        }
        let ghost all = list@;
        assert(are_summaries(all, self@.tasks));
        let less = |a: &TaskSummary, b: &TaskSummary| -> (x: bool)
            ensures
                x == b.created_at.before(a.created_at),
            { b.created_at.is_before(&a.created_at) };
        let mut sorted = sort_stable(list, less, Ghost(newer_task()));
        let ghost full = sorted@;
        assert(is_sorted_from(all, full, newer_task()));
        if let Some(n) = limit {
            if n < sorted.len() {
                sorted.truncate(n);
            }
        }
        assert(sorted@ =~= limited(full, limit));
        sorted
    }
}

// Opening --------------------------------------------------------------------
pub open spec fn duplicate_key(key: Seq<char>, first: Seq<char>, second: Seq<char>) -> Seq<char> {
    "Duplicate task idempotency key '"@ + key + "' for tasks '"@ + first + "' and '"@ + second + "'"@
}

/// The keys of the tasks with the tasks' identifiers, or what to say of the first key
/// that two tasks share.
pub open spec fn keys_of(tasks: Seq<TaskRecord>) -> Result<Seq<(Seq<char>, Seq<char>)>, Seq<char>>
    decreases tasks.len(),
{
    if tasks.len() == 0 {
        Ok(Seq::empty())
    } else {
        match keys_of(tasks.drop_last()) {
            Err(words) => Err(words),
            Ok(keys) => {
                let task = tasks.last();
                match text_opt(task.idempotency_key) {
                    None => Ok(keys),
                    Some(key) => match task_under(keys, key) {
                        Some(other) => Err(duplicate_key(key, other, task.id@)),
                        None => Ok(keys.push((key, task.id@))),
                    },
                }
            },
        }
    }
}

proof fn lemma_keys_error_persists(tasks: Seq<TaskRecord>, n: int)
    requires
        0 <= n <= tasks.len(),
        keys_of(tasks.take(n)) is Err,
    ensures
        keys_of(tasks) == keys_of(tasks.take(n)),
    decreases tasks.len(),
{
    if n == tasks.len() {
        assert(tasks.take(n) =~= tasks);
    } else {
        assert(tasks.drop_last().take(n) =~= tasks.take(n));
        lemma_keys_error_persists(tasks.drop_last(), n);
    }
}

fn find_key(list: &Vec<KeyedTask>, key: &str) -> (r: Option<String>)
    ensures
        match r {
            Some(id) => task_under(keyed(list@), key@) == Some(id@),
            None => task_under(keyed(list@), key@) is None,
        },
{
    let mut i: usize = 0;
    let ghost all = keyed(list@);
    assert(all.skip(0) =~= all);
    while i < list.len()
        invariant
            i <= list@.len(),
            all == keyed(list@),
            task_under(all, key@) == task_under(all.skip(i as int), key@),
        decreases list@.len() - i,
    {
        proof {
            assert(all.skip(i as int).drop_first() =~= all.skip(i + 1));
            assert(all.skip(i as int)[0] == (list@[i as int].key@, list@[i as int].task_id@));
        }
        if same_text(list[i].key.as_str(), key) {
            return Some(copy_text(list[i].task_id.as_str()));
        }
        i += 1;
    }
    None
}

/// The keys that the tasks were queued under. Two tasks may not share one.
pub fn build_idempotency_index(tasks: &Vec<TaskRecord>) -> (r: Result<Vec<KeyedTask>, Failure>)
    ensures
        match keys_of(tasks@) {
            Ok(keys) => r matches Ok(list) && keyed(list@) == keys,
            Err(words) => r matches Err(e) && e@ == words,
        },
{
    let mut index: Vec<KeyedTask> = Vec::new();
    let mut i: usize = 0;
    assert(tasks@.take(0) =~= Seq::empty());
    assert(keyed(index@) =~= Seq::empty());
    while i < tasks.len()
        invariant
            i <= tasks@.len(),
            keys_of(tasks@.take(i as int)) == Ok::<Seq<(Seq<char>, Seq<char>)>, Seq<char>>(
                keyed(index@),
            ),
        decreases tasks@.len() - i,
    {
        proof {
            assert(tasks@.take(i + 1).drop_last() =~= tasks@.take(i as int));
        }
        if let Some(key) = &tasks[i].idempotency_key {
            if let Some(other) = find_key(&index, key.as_str()) {
                let mut message = join3(
                    "Duplicate task idempotency key '",
                    key.as_str(),
                    "' for tasks '",
                );
                message.append(other.as_str());
                message.append("' and '");
                message.append(tasks[i].id.as_str());
                message.append("'");
                proof {
                    lemma_keys_error_persists(tasks@, i + 1);
                }
                return Err(Failure { message });
            }
            let ghost before = index@;
            index.push(
                KeyedTask { key: copy_text(key.as_str()), task_id: copy_text(tasks[i].id.as_str()) },
            );
            assert(keyed(index@) =~= keyed(before).push((key@, tasks@[i as int].id@)));
        }
        i += 1;
    }
    assert(tasks@.take(tasks@.len() as int) =~= tasks@);
    Ok(index)
}

impl ManagerState {
    /// What a manager knows after it has read its tasks and its queue.
    pub fn open(tasks: Vec<TaskRecord>, stored_queue: Vec<String>) -> (r: Result<Self, Failure>)
        ensures
            match keys_of(tasks@) {
                Err(words) => r matches Err(e) && e@ == words,
                Ok(keys) => {
                    &&& r matches Ok(state)
                    &&& state@.tasks == tasks@
                    &&& is_rebuilt_queue(tasks@, texts(stored_queue@), state@.queue)
                    &&& state@.keys == keys
                    &&& state@.running.len() == 0
                },
            },
    {
        let queue = rebuild_queue(&tasks, stored_queue);
        match build_idempotency_index(&tasks) {
            Err(e) => Err(e),
            Ok(idempotency_index) => {
                let running: Vec<String> = Vec::new();
                assert(texts(running@) =~= Seq::empty());
                Ok(ManagerState { tasks, queue, idempotency_index, running })
            },
        }
    }
}

// Adding ---------------------------------------------------------------------
/// What to do about a request for a new task.
#[derive(Debug)]
pub enum AddPlan {
    /// The key has been used: this is the task that it led to.
    Existing(String),
    /// A new task, to be stored and then added.
    New(TaskRecord),
}

/// A task that was just asked for.
pub open spec fn is_new_task(
    task: TaskRecord,
    req: NewTaskRequest,
    cfg: TaskManagerConfig,
    default_workspace: Seq<char>,
    key: Option<Seq<char>>,
    id: Seq<char>,
    now: Timestamp,
) -> bool {
    &&& task.schema_version == CURRENT_TASK_SCHEMA_VERSION
    &&& task.id@ == id
    &&& task.prompt@ == trimmed(req.prompt@)
    &&& task.model@ == match req.model {
        Some(model) => model@,
        None => cfg.default_model@,
    }
    &&& task.workspace@ == match req.workspace {
        Some(workspace) => workspace@,
        None => default_workspace,
    }
    &&& task.mode@ == lower(trimmed(requested_mode(req, cfg)))
    &&& task.allow_shell == match req.allow_shell {
        Some(b) => b,
        None => cfg.allow_shell,
    }
    &&& task.trust_mode == match req.trust_mode {
        Some(b) => b,
        None => cfg.trust_mode,
    }
    &&& task.auto_approve == (req.auto_approve == Some(true))
    &&& text_opt(task.idempotency_key) == key
    &&& task.status is Queued
    &&& task.created_at == now
    &&& task.started_at is None && task.ended_at is None && task.duration_ms is None
    &&& task.result_summary is None && task.result_detail_path is None && task.error is None
    &&& task.thread_id is None && task.turn_id is None && task.runtime_event_count == 0
    &&& task.checklist.items@.len() == 0 && task.checklist.completion_pct == 0
    &&& task.checklist.in_progress_id is None && task.checklist.updated_at is None
    &&& task.gates@.len() == 0 && task.attempts@.len() == 0 && task.artifacts@.len() == 0
    &&& task.github_events@.len() == 0 && task.tool_calls@.len() == 0
    &&& task.timeline@.len() == 1
    &&& is_entry(task.timeline@[0], now, "queued"@, "Task queued"@, None)
}

/// The mode that a request asks for.
pub open spec fn requested_mode(req: NewTaskRequest, cfg: TaskManagerConfig) -> Seq<char> {
    match req.mode {
        Some(mode) => mode@,
        None => cfg.default_mode@,
    }
}

/// What is wrong with a request.
pub open spec fn request_fault(req: NewTaskRequest, cfg: TaskManagerConfig) -> Option<Seq<char>> {
    let mode = requested_mode(req, cfg);
    if trimmed(req.prompt@).len() == 0 {
        Some("Task prompt cannot be empty"@)
    } else if !is_task_mode(lower(trimmed(mode))) {
        Some(
            "Invalid task mode '"@ + mode + "'. Expected one of: agent, plan, yolo"@,
        )
    } else {
        None
    }
}

/// What was tried came from `generate`; `id` is the first of it that is free, and none is
/// where all of the tries were taken.
pub open spec fn is_fresh_id<F: Fn() -> String>(
    tasks: Seq<TaskRecord>,
    generate: F,
    tried: Seq<String>,
    id: Option<Seq<char>>,
) -> bool {
    &&& tried.len() <= MAX_TASK_ID_GENERATION_ATTEMPTS
    &&& forall|i: int| 0 <= i < tried.len() ==> call_ensures(generate, (), #[trigger] tried[i])
    &&& match id {
        Some(s) => tried.len() > 0 && tried.last()@ == s && !has_task(tasks, s) && forall|i: int|
            0 <= i < tried.len() - 1 ==> has_task(tasks, (#[trigger] tried[i])@),
        None => tried.len() == MAX_TASK_ID_GENERATION_ATTEMPTS && forall|i: int|
            0 <= i < tried.len() ==> has_task(tasks, (#[trigger] tried[i])@),
    }
}

/// What [`ManagerState::plan_task_with`] makes of a request that nothing is wrong with
/// and whose key is new.
pub open spec fn new_task_or_refusal(
    req: NewTaskRequest,
    cfg: TaskManagerConfig,
    default_workspace: Seq<char>,
    key: Option<Seq<char>>,
    id: Option<Seq<char>>,
    now: Timestamp,
    r: Result<AddPlan, Failure>,
) -> bool {
    match id {
        None => r matches Err(e) && e@ == "Failed to generate a unique task id"@,
        Some(id) => match storage_id_fault("task id"@, id) {
            Some(words) => r matches Err(e) && e@ == words,
            None => r matches Ok(AddPlan::New(task)) && is_new_task(
                task,
                req,
                cfg,
                default_workspace,
                key,
                id,
                now,
            ),
        },
    }
}

/// The task that a key has led to.
pub open spec fn existing_task(m: ManagerModel, key: Option<Seq<char>>) -> Option<Seq<char>> {
    match key {
        Some(k) => task_under(m.keys, k),
        None => None,
    }
}

/// Whether a request is in order and its key, if it has one, is new.
pub open spec fn asks_for_new_task(
    m: ManagerModel,
    req: NewTaskRequest,
    cfg: TaskManagerConfig,
    key: Option<Seq<char>>,
) -> bool {
    request_fault(req, cfg) is None && existing_task(m, key) is None
}

/// What is made of a request whose key is known, whatever it asks for, or that something is
/// wrong with.
pub open spec fn is_known_plan(
    m: ManagerModel,
    req: NewTaskRequest,
    cfg: TaskManagerConfig,
    key: Option<Seq<char>>,
    r: Result<AddPlan, Failure>,
) -> bool {
    match existing_task(m, key) {
        Some(id) => if has_task(m.tasks, id) {
            r matches Ok(AddPlan::Existing(s)) && s@ == id
        } else {
            r matches Err(e) && e@ == "Task idempotency index points to missing task "@ + id
        },
        None => request_fault(req, cfg) matches Some(words) ==> (r matches Err(e) && e@ == words),
    }
}

/// What [`ManagerState::plan_task`] makes of a request.
pub open spec fn is_task_plan(
    m: ManagerModel,
    req: NewTaskRequest,
    cfg: TaskManagerConfig,
    default_workspace: Seq<char>,
    key: Option<Seq<char>>,
    now: Timestamp,
    r: Result<AddPlan, Failure>,
) -> bool {
    &&& is_known_plan(m, req, cfg, key, r)
    &&& asks_for_new_task(m, req, cfg, key) ==> exists|id: Option<Seq<char>>| #[trigger]
        is_random_task_id(m.tasks, id) && new_task_or_refusal(
            req,
            cfg,
            default_workspace,
            key,
            id,
            now,
            r,
        )
}

/// The identifier of a new task.
pub fn task_id_candidate() -> (r: String)
    ensures
        is_task_id_text(r@),
{
    let id = new_uuid();
    let r = join2("task_", id.as_str());
    proof {
        reveal_strlit("task_");
        assert(r@.take(5) =~= "task_"@);
        assert(r@.skip(5) =~= id@);
    }
    r
}

impl ManagerState {
    fn fresh_id<F: Fn() -> String>(&self, generate: &F) -> (r: Option<String>)
        requires
            call_requires(*generate, ()),
        ensures
            exists|tried: Seq<String>| #[trigger]
                is_fresh_id(self@.tasks, *generate, tried, text_opt(r)),
    {
        let mut tries: usize = 0;
        let ghost mut tried: Seq<String> = Seq::empty();
        while tries < MAX_TASK_ID_GENERATION_ATTEMPTS
            invariant
                tries <= MAX_TASK_ID_GENERATION_ATTEMPTS,
                tried.len() == tries,
                call_requires(*generate, ()),
                forall|i: int|
                    0 <= i < tries ==> call_ensures(*generate, (), #[trigger] tried[i]) && has_task(
                        self.tasks@,
                        tried[i]@,
                    ),
            decreases MAX_TASK_ID_GENERATION_ATTEMPTS - tries,
        {
            let candidate = generate();
            proof {
                tried = tried.push(candidate);
            }
            if !knows_task(&self.tasks, candidate.as_str()) {
                assert(is_fresh_id(self@.tasks, *generate, tried, Some(candidate@)));
                return Some(candidate);
            }
            tries = tries + 1;
        }
        assert(is_fresh_id(self@.tasks, *generate, tried, None));
        None
    }

    /// Works out the task that a request asks for, with an identifier from `generate`. A key
    /// that is known leads to its task, whatever the request.
    pub fn plan_task_with<F: Fn() -> String>(
        &self,
        req: NewTaskRequest,
        cfg: &TaskManagerConfig,
        default_workspace: &str,
        key: Option<String>,
        now: Timestamp,
        generate: &F,
    ) -> (r: Result<AddPlan, Failure>)
        requires
            call_requires(*generate, ()),
        ensures
            is_known_plan(self@, req, *cfg, text_opt(key), r),
            asks_for_new_task(self@, req, *cfg, text_opt(key)) ==> exists|
                tried: Seq<String>,
                id: Option<Seq<char>>,
            | #[trigger]
                is_fresh_id(self@.tasks, *generate, tried, id) && new_task_or_refusal(
                    req,
                    *cfg,
                    default_workspace@,
                    text_opt(key),
                    id,
                    now,
                    r,
                ),
    {
        if let Some(k) = &key {
            if let Some(id) = find_key(&self.idempotency_index, k.as_str()) {
                if !knows_task(&self.tasks, id.as_str()) {
                    return Err(
                        Failure {
                            message: join2(
                                "Task idempotency index points to missing task ",
                                id.as_str(),
                            ),
                        },
                    );
                }
                return Ok(AddPlan::Existing(id));
            }
        }
        let prompt = trim(req.prompt.as_str());
        if prompt.as_str().unicode_len() == 0 {
            return Err(failure("Task prompt cannot be empty"));
        }
        let asked = match &req.mode {
            Some(mode) => copy_text(mode.as_str()),
            None => copy_text(cfg.default_mode.as_str()),
        };
        let mode = match normalize_task_mode(asked.as_str()) {
            Err(e) => {
                return Err(e);
            },
            Ok(mode) => mode,
        };
        let fresh = self.fresh_id(generate);
        let ghost chosen = text_opt(fresh);
        let ghost tried = choose|tried: Seq<String>| #[trigger]
            is_fresh_id(self@.tasks, *generate, tried, chosen);
        assert(is_fresh_id(self@.tasks, *generate, tried, chosen));
        let id = match fresh {
            None => {
                return Err(failure("Failed to generate a unique task id"));
            },
            Some(id) => id,
        };
        if let Err(e) = ensure_safe_storage_id("task id", id.as_str()) {
            return Err(e);
        }
        let mut timeline: Vec<TaskTimelineEntry> = Vec::new();
        timeline.push(
            TaskTimelineEntry {
                timestamp: now,
                kind: copy_text("queued"),
                summary: copy_text("Task queued"),
                detail_path: None,
            },
        );
        let task = TaskRecord {
            schema_version: CURRENT_TASK_SCHEMA_VERSION,
            id,
            prompt,
            model: match req.model {
                Some(model) => model,
                None => copy_text(cfg.default_model.as_str()),
            },
            workspace: match req.workspace {
                Some(workspace) => workspace,
                None => copy_text(default_workspace),
            },
            mode,
            allow_shell: match req.allow_shell {
                Some(b) => b,
                None => cfg.allow_shell,
            },
            trust_mode: match req.trust_mode {
                Some(b) => b,
                None => cfg.trust_mode,
            },
            auto_approve: approval_of(req.auto_approve),
            idempotency_key: key,
            status: TaskStatus::Queued,
            created_at: now,
            started_at: None,
            ended_at: None,
            duration_ms: None,
            result_summary: None,
            result_detail_path: None,
            error: None,
            thread_id: None,
            turn_id: None,
            runtime_event_count: 0,
            checklist: TaskChecklistState::default(),
            gates: Vec::new(),
            attempts: Vec::new(),
            artifacts: Vec::new(),
            github_events: Vec::new(),
            tool_calls: Vec::new(),
            timeline,
        };
        assert(is_new_task(task, req, *cfg, default_workspace@, text_opt(key), chosen->Some_0, now));
        Ok(AddPlan::New(task))
    }

    /// Works out the task that a request asks for, with a random identifier. A key that is
    /// known leads to its task, whatever the request.
    pub fn plan_task(
        &self,
        req: NewTaskRequest,
        cfg: &TaskManagerConfig,
        default_workspace: &str,
        key: Option<String>,
        now: Timestamp,
    ) -> (r: Result<AddPlan, Failure>)
        ensures
            is_task_plan(self@, req, *cfg, default_workspace@, text_opt(key), now, r),
            asks_for_new_task(self@, req, *cfg, text_opt(key)) && no_random_ids(self@.tasks)
                ==> r matches Ok(AddPlan::New(_)),
    {
        let r = self.plan_task_with(req, cfg, default_workspace, key, now, &task_id_candidate);
        proof {
            if asks_for_new_task(self@, req, *cfg, text_opt(key)) {
                let (tried, id) = choose|tried: Seq<String>, id: Option<Seq<char>>| #[trigger]
                    is_fresh_id(self@.tasks, task_id_candidate, tried, id) && new_task_or_refusal(
                        req,
                        *cfg,
                        default_workspace@,
                        text_opt(key),
                        id,
                        now,
                        r,
                    );
                match id {
                    Some(s) => {
                        assert(call_ensures(task_id_candidate, (), tried[tried.len() - 1]));
                        task_ids_are_safe(s);
                    },
                    None => {
                        let ids = texts(tried);
                        assert forall|i: int| 0 <= i < ids.len() implies is_task_id_text(
                            #[trigger] ids[i],
                        ) && has_task(self@.tasks, ids[i]) by {
                            assert(call_ensures(task_id_candidate, (), tried[i]));
                        }
                        assert(are_taken_ids(self@.tasks, ids));
                        assert(is_task_id_text(ids[0]));
                    },
                }
                assert(is_random_task_id(self@.tasks, id));
            }
        }
        r
    }
}

/// The text of a random task identifier.
pub open spec fn is_task_id_text(s: Seq<char>) -> bool {
    &&& s.len() == 41
    &&& starts_with_seq(s, "task_"@)
    &&& is_uuid_text(s.skip(5))
}

/// A random identifier that no task has. There may be none only where all that were tried
/// are taken.
pub open spec fn is_random_task_id(tasks: Seq<TaskRecord>, id: Option<Seq<char>>) -> bool {
    match id {
        Some(s) => is_task_id_text(s) && !has_task(tasks, s),
        None => exists|tried: Seq<Seq<char>>| #[trigger] are_taken_ids(tasks, tried),
    }
}

/// As many random identifiers as are tried, each of which some task has.
pub open spec fn are_taken_ids(tasks: Seq<TaskRecord>, tried: Seq<Seq<char>>) -> bool {
    &&& tried.len() == MAX_TASK_ID_GENERATION_ATTEMPTS
    &&& forall|i: int|
        0 <= i < tried.len() ==> is_task_id_text(#[trigger] tried[i]) && has_task(tasks, tried[i])
}

/// No task has a random identifier.
pub open spec fn no_random_ids(tasks: Seq<TaskRecord>) -> bool {
    forall|s: Seq<char>| #[trigger] has_task(tasks, s) ==> !is_task_id_text(s)
}

/// A random task identifier names a file.
pub proof fn task_ids_are_safe(s: Seq<char>)
    requires
        is_task_id_text(s),
    ensures
        storage_id_fault("task id"@, s) is None,
{
    reveal_strlit("task_");
    reveal_strlit(".");
    reveal_strlit("..");
    let tail = s.skip(5);
    assert forall|i: int| 0 <= i < s.len() implies s[i] != '/' by {
        if i < 5 {
            assert(s[i] == s.take(5)[i]);
        } else {
            let k = i - 5;
            assert(s[i] == tail[k]);
            assert(if is_hyphen_place(k) { tail[k] == '-' } else { is_hex(tail[k]) });
        }
    }
    lemma_first_index_is(s, '/', s.len() as int);
    assert(split_on(s, '/') =~= seq![s]);
}

// Changes --------------------------------------------------------------------
/// The keys with `id` under `key`.
pub open spec fn with_key(
    keys: Seq<(Seq<char>, Seq<char>)>,
    key: Option<Seq<char>>,
    id: Seq<char>,
) -> Seq<(Seq<char>, Seq<char>)> {
    match key {
        Some(k) => keys.push((k, id)),
        None => keys,
    }
}

/// A new task was stored.
pub open spec fn added(m: ManagerModel, task: TaskRecord) -> ManagerModel {
    ManagerModel {
        tasks: with_task(m.tasks, task),
        queue: m.queue.push(task.id@),
        keys: with_key(m.keys, text_opt(task.idempotency_key), task.id@),
        running: m.running,
    }
}

/// A record that replaces another was stored.
pub open spec fn replaced(m: ManagerModel, task: TaskRecord) -> ManagerModel {
    ManagerModel { tasks: with_task(m.tasks, task), ..m }
}

/// The start of a task was stored.
pub open spec fn started(m: ManagerModel, task: TaskRecord) -> ManagerModel {
    ManagerModel {
        tasks: with_task(m.tasks, task),
        queue: m.queue.drop_first(),
        keys: m.keys,
        running: without_id(m.running, task.id@).push(task.id@),
    }
}

/// A canceled task was stored.
pub open spec fn canceled(m: ManagerModel, task: TaskRecord, effect: CancelEffect) -> ManagerModel {
    match effect {
        CancelEffect::LeaveQueue => ManagerModel {
            tasks: with_task(m.tasks, task),
            queue: without_id(m.queue, task.id@),
            ..m
        },
        CancelEffect::Signal => replaced(m, task),
        CancelEffect::Nothing => m,
    }
}

/// The end of a task was stored.
pub open spec fn finished(m: ManagerModel, task: TaskRecord) -> ManagerModel {
    ManagerModel {
        tasks: with_task(m.tasks, task),
        running: without_id(m.running, task.id@),
        ..m
    }
}

/// A task was deleted.
pub open spec fn forgot(m: ManagerModel, id: Seq<char>) -> ManagerModel {
    ManagerModel {
        tasks: m.tasks.filter(other_task(id)),
        queue: without_id(m.queue, id),
        keys: m.keys.filter(other_key(id)),
        running: without_id(m.running, id),
    }
}

impl ManagerState {
    fn put(&mut self, task: TaskRecord)
        ensures
            final(self).tasks@ == with_task(old(self).tasks@, task),
            final(self).queue == old(self).queue,
            final(self).idempotency_index == old(self).idempotency_index,
            final(self).running == old(self).running,
    {
        let k: usize = find_task(&self.tasks, task.id.as_str());
        if k < self.tasks.len() {
            self.tasks.set(k, task);
        } else {
            self.tasks.push(task);
        }
    }

    /// Takes in a new task that has been stored.
    pub fn commit_new(&mut self, task: TaskRecord)
        ensures
            final(self)@ == added(old(self)@, task),
    {
        let id = copy_text(task.id.as_str());
        let ghost before = *self;
        if let Some(key) = &task.idempotency_key {
            self.idempotency_index.push(
                KeyedTask { key: copy_text(key.as_str()), task_id: copy_text(task.id.as_str()) },
            );
            assert(keyed(self.idempotency_index@) =~= keyed(before.idempotency_index@).push(
                (key@, task.id@),
            ));
        }
        self.put(task);
        self.queue.push(id);
        assert(texts(self.queue@) =~= texts(before.queue@).push(task.id@));
    }

    /// Takes in a record that has been stored in place of another.
    pub fn commit(&mut self, task: TaskRecord)
        ensures
            final(self)@ == replaced(old(self)@, task),
    {
        self.put(task);
    }

    /// Takes in the record of a task that was started, which leaves the head of the
    /// queue.
    pub fn commit_start(&mut self, task: TaskRecord)
        requires
            old(self)@.queue.len() > 0,
        ensures
            final(self)@ == started(old(self)@, task),
    {
        let id = copy_text(task.id.as_str());
        let ghost before = *self;
        self.put(task);
        assert(texts(before.queue@).len() == before.queue@.len());
        let _ = self.queue.remove(0);
        assert(texts(self.queue@) =~= texts(before.queue@).drop_first());
        drop_id(&mut self.running, id.as_str());
        let ghost kept = self.running@;
        self.running.push(id);
        assert(texts(self.running@) =~= texts(kept).push(task.id@));
    }

    /// Takes in the record of a task that was canceled or asked to stop.
    pub fn commit_cancel(&mut self, task: TaskRecord, effect: CancelEffect)
        ensures
            final(self)@ == canceled(old(self)@, task, effect),
    {
        match effect {
            CancelEffect::LeaveQueue => {
                let id = copy_text(task.id.as_str());
                self.put(task);
                drop_id(&mut self.queue, id.as_str());
            },
            CancelEffect::Signal => {
                self.put(task);
            },
            CancelEffect::Nothing => {},
        }
    }

    /// Takes in the record of a task that has ended.
    pub fn commit_finish(&mut self, task: TaskRecord)
        ensures
            final(self)@ == finished(old(self)@, task),
    {
        let id = copy_text(task.id.as_str());
        self.put(task);
        drop_id(&mut self.running, id.as_str());
    }

    /// Forgets a task whose files have been deleted.
    pub fn forget(&mut self, id: &str)
        ensures
            final(self)@ == forgot(old(self)@, id@),
    {
        self.drop_tasks(id);
        drop_id(&mut self.queue, id);
        self.drop_keys(id);
        drop_id(&mut self.running, id);
    }

    fn drop_tasks(&mut self, id: &str)
        ensures
            final(self).tasks@ == old(self).tasks@.filter(other_task(id@)),
            final(self).queue == old(self).queue,
            final(self).idempotency_index == old(self).idempotency_index,
            final(self).running == old(self).running,
    {
        let ghost all = self.tasks@;
        let ghost keep = other_task(id@);
        let mut rest: Vec<TaskRecord> = Vec::new();
        std::mem::swap(&mut self.tasks, &mut rest);
        let mut out: Vec<TaskRecord> = Vec::new();
        proof {
            reveal(Seq::filter);
            assert(all.take(0).filter(keep) =~= Seq::empty());
        }
        while rest.len() > 0
            invariant
                rest@.len() <= all.len(),
                rest@ == all.skip(all.len() - rest@.len()),
                keep == other_task(id@),
                out@ == all.take(all.len() - rest@.len()).filter(keep),
            decreases rest@.len(),
        {
            let ghost done = all.len() - rest@.len();
            let first = rest.remove(0);
            proof {
                reveal(Seq::filter);
                assert(all.take(done + 1).drop_last() =~= all.take(done));
                assert(rest@ =~= all.skip(done + 1));
            }
            if !same_text(first.id.as_str(), id) {
                out.push(first);
            }
        }
        assert(all.take(all.len() as int) =~= all);
        self.tasks = out;
    }

    fn drop_keys(&mut self, id: &str)
        ensures
            keyed(final(self).idempotency_index@) == keyed(old(self).idempotency_index@).filter(
                other_key(id@),
            ),
            final(self).tasks == old(self).tasks,
            final(self).queue == old(self).queue,
            final(self).running == old(self).running,
    {
        let ghost all = keyed(self.idempotency_index@);
        let ghost keep = other_key(id@);
        let mut rest: Vec<KeyedTask> = Vec::new();
        std::mem::swap(&mut self.idempotency_index, &mut rest);
        let mut out: Vec<KeyedTask> = Vec::new();
        proof {
            reveal(Seq::filter);
            assert(all.take(0).filter(keep) =~= Seq::empty());
            assert(keyed(out@) =~= Seq::empty());
        }
        while rest.len() > 0
            invariant
                rest@.len() <= all.len(),
                keyed(rest@) == all.skip(all.len() - rest@.len()),
                keep == other_key(id@),
                keyed(out@) == all.take(all.len() - rest@.len()).filter(keep),
            decreases rest@.len(),
        {
            let ghost done = all.len() - rest@.len();
            let ghost before = rest@;
            let first = rest.remove(0);
            proof {
                reveal(Seq::filter);
                assert(keyed(before)[0] == (first.key@, first.task_id@));
                assert(all[done] == (first.key@, first.task_id@));
                assert(all.take(done + 1).drop_last() =~= all.take(done));
                assert(rest@ =~= before.drop_first());
                assert(keyed(rest@) =~= all.skip(done + 1)) by {
                    assert(keyed(before).drop_first() =~= keyed(rest@));
                    assert(all.skip(done).drop_first() =~= all.skip(done + 1));
                }
            }
            if !same_text(first.task_id.as_str(), id) {
                let ghost kept = out@;
                out.push(first);
                assert(keyed(out@) =~= keyed(kept).push(all[done]));
            }
        }
        assert(all.take(all.len() as int) =~= all);
        self.idempotency_index = out;
    }
}

/// A change that has been worked out, with the record to store.
#[derive(Debug)]
pub enum Change {
    /// A new task.
    New(TaskRecord),
    /// A record that replaces another.
    Replace(TaskRecord),
    /// The start of the task at the head of the queue.
    Start(TaskRecord),
    /// A cancellation.
    Cancel { task: TaskRecord, effect: CancelEffect },
    /// The end of a task.
    Finish(TaskRecord),
}

/// What a manager knows once a change has been stored.
pub open spec fn changed(m: ManagerModel, change: Change) -> ManagerModel {
    match change {
        Change::New(task) => added(m, task),
        Change::Replace(task) => replaced(m, task),
        Change::Start(task) => started(m, task),
        Change::Cancel { task, effect } => canceled(m, task, effect),
        Change::Finish(task) => finished(m, task),
    }
}

impl ManagerState {
    /// Takes in a change whose record has been stored. One whose record could not be
    /// stored changes nothing.
    pub fn settle(&mut self, change: Change, stored: Result<(), String>) -> (r: Result<(), Failure>)
        requires
            change is Start ==> old(self)@.queue.len() > 0,
        ensures
            match stored {
                Ok(_) => r is Ok && final(self)@ == changed(old(self)@, change),
                Err(why) => (r matches Err(e) && e@ == why@) && *final(self) == *old(self),
            },
    {
        if let Err(why) = stored {
            return Err(Failure { message: why });
        }
        match change {
            Change::New(task) => self.commit_new(task),
            Change::Replace(task) => self.commit(task),
            Change::Start(task) => self.commit_start(task),
            Change::Cancel { task, effect } => self.commit_cancel(task, effect),
            Change::Finish(task) => self.commit_finish(task),
        }
        Ok(())
    }
}

// The head of the queue ------------------------------------------------------
/// The queue from the first task on that still waits.
pub open spec fn from_first_waiting(tasks: Seq<TaskRecord>, queue: Seq<Seq<char>>) -> Seq<Seq<char>>
    decreases queue.len(),
{
    if queue.len() == 0 {
        queue
    } else if task_of(tasks, queue[0]) matches Some(task) && task.status is Queued {
        queue
    } else {
        from_first_waiting(tasks, queue.drop_first())
    }
}

impl ManagerState {
    /// Drops from the head of the queue what does not wait any more, and gives the
    /// identifier of the task that is next. The flag says whether anything was dropped.
    pub fn next_waiting(&mut self) -> (r: (Option<String>, bool))
        ensures
            final(self)@ == (ManagerModel {
                queue: from_first_waiting(old(self)@.tasks, old(self)@.queue),
                ..old(self)@
            }),
            match r.0 {
                Some(id) => final(self)@.queue.len() > 0 && final(self)@.queue[0] == id@ && (task_of(
                    final(self)@.tasks,
                    id@,
                ) matches Some(task) && task.status is Queued),
                None => final(self)@.queue.len() == 0,
            },
            r.1 == (final(self)@.queue.len() < old(self)@.queue.len()),
    {
        let ghost start = self@;
        let mut dropped = false;
        loop
            invariant
                start == old(self)@,
                self@.tasks == start.tasks,
                self@.keys == start.keys,
                self@.running == start.running,
                from_first_waiting(start.tasks, self@.queue) == from_first_waiting(
                    start.tasks,
                    start.queue,
                ),
                self@.queue.len() <= start.queue.len(),
                dropped == (self@.queue.len() < start.queue.len()),
            decreases self.queue@.len(),
        {
            assert(self@.queue.len() == self.queue@.len());
            if self.queue.len() == 0 {
                return (None, dropped);
            }
            assert(self@.queue[0] == self.queue@[0]@);
            let k: usize = find_task(&self.tasks, self.queue[0].as_str());
            if k < self.tasks.len() && self.tasks[k].status == TaskStatus::Queued {
                return (Some(copy_text(self.queue[0].as_str())), dropped);
            }
            let ghost before = self.queue@;
            let _ = self.queue.remove(0);
            assert(self.queue@ =~= before.drop_first());
            assert(texts(self.queue@) =~= texts(before).drop_first());
            dropped = true;
        }
    }
}

// Pruning --------------------------------------------------------------------
/// The tasks that may be deleted: they are over, and nothing protects them.
pub open spec fn prunable_ids(tasks: Seq<TaskRecord>, protected: Seq<Seq<char>>) -> Seq<Seq<char>>
    decreases tasks.len(),
{
    if tasks.len() == 0 {
        Seq::empty()
    } else {
        let before = prunable_ids(tasks.drop_last(), protected);
        let task = tasks.last();
        if task.status.terminal() && !protected.contains(task.id@) {
            before.push(task.id@)
        } else {
            before
        }
    }
}

impl ManagerState {
    /// The identifiers of the tasks that may be deleted, in order.
    pub fn prune_candidates(&self, protected: &Vec<String>) -> (r: Vec<String>)
        ensures
            is_sorted_from(
                prunable_ids(self@.tasks, texts(protected@)),
                texts(r@),
                id_order(),
            ),
    {
        let mut out: Vec<String> = Vec::new();
        let mut i: usize = 0;
        assert(self.tasks@.take(0) =~= Seq::empty());
        assert(texts(out@) =~= Seq::empty());
        while i < self.tasks.len()
            invariant
                i <= self.tasks@.len(),
                texts(out@) == prunable_ids(self.tasks@.take(i as int), texts(protected@)),
            decreases self.tasks@.len() - i,
        {
            proof {
                assert(self.tasks@.take(i + 1).drop_last() =~= self.tasks@.take(i as int));
            }
            if self.tasks[i].status.is_terminal() && !contains_text(
                protected,
                self.tasks[i].id.as_str(),
            ) {
                let ghost before = out@;
                out.push(copy_text(self.tasks[i].id.as_str()));
                assert(texts(out@) =~= texts(before).push(self.tasks@[i as int].id@));
            }
            i += 1;
        }
        assert(self.tasks@.take(self.tasks@.len() as int) =~= self.tasks@);
        sort_ids(out)
    }
}

} // verus!
