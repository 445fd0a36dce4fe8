//! How a manager reads its tasks back after a restart.
//!
//! Each record is put right, and stored again where that changed it, before it is taken
//! in. With the last record the manager knows what it knew before, but for what was
//! running: that has failed.
use vstd::prelude::*;
use vstd::string::*;

use crate::failure::{fault_of, Failure};
use crate::order::lemma_permutation_hits;
use crate::task::{is_task_mode, stored_task_mode, TaskRecord};
use crate::task_recovery::{
    a_queue_is_rebuilt_in_one_way, has_queued, has_task, identity_fault, ids_differ,
    insert_loaded_task, is_rebuilt_queue, is_recovered, nothing_runs_after_a_restart,
    rebuilt_queues_are_stable, recover_task, recovery_is_done_once,
};
use crate::task_store::{keys_of, ManagerState};
use crate::task_store_laws::{consistent, opened_states_are_consistent};
use crate::text::{copy_text, texts};
use crate::time::Timestamp;

verus! {

/// A record that has to be stored before it is taken in.
#[derive(Debug)]
pub struct HeldTask {
    pub task: TaskRecord,
    /// The file that it was read from.
    pub path: String,
}

/// The tasks that have been read so far.
#[derive(Debug)]
pub struct TaskLoading {
    pub tasks: Vec<TaskRecord>,
    pub held: Option<HeldTask>,
}

/// None of the tasks runs.
pub open spec fn none_runs(tasks: Seq<TaskRecord>) -> bool {
    forall|i: int| 0 <= i < tasks.len() ==> (#[trigger] tasks[i]).status !is Running
}

/// A record is taken in, unless its identifier is known.
pub open spec fn is_taken_in(
    old: Seq<TaskRecord>,
    task: TaskRecord,
    path: Seq<char>,
    new: Seq<TaskRecord>,
    fault: Option<Seq<char>>,
) -> bool {
    if has_task(old, task.id@) {
        new == old && fault == Some(
            "Duplicate persisted task id '"@ + task.id@ + "' while loading "@ + path,
        )
    } else {
        new == old.push(task) && fault is None
    }
}

/// What [`TaskLoading::read`] makes of a record once it is put right.
pub open spec fn is_read(
    old: TaskLoading,
    task: TaskRecord,
    changed: bool,
    path: Seq<char>,
    new: TaskLoading,
    r: Result<bool, Failure>,
) -> bool {
    if changed {
        &&& r == Ok::<bool, Failure>(true)
        &&& new.tasks == old.tasks
        &&& new.held matches Some(h) && h.task == task && h.path@ == path
    } else {
        &&& new.held is None
        &&& is_taken_in(
            old.tasks@,
            task,
            path,
            new.tasks@,
            match r {
                Ok(_) => None,
                Err(e) => Some(e@),
            },
        )
        &&& r is Ok ==> r == Ok::<bool, Failure>(false)
    }
}

/// A file with a task's record: its name without the extension, its path, and the record.
pub struct TaskFile {
    pub file_stem: Seq<char>,
    pub path: Seq<char>,
    pub task: TaskRecord,
}

/// What [`TaskLoading::read`] does.
pub open spec fn is_reading(
    old: TaskLoading,
    file: TaskFile,
    now: Timestamp,
    new: TaskLoading,
    r: Result<bool, Failure>,
) -> bool {
    match identity_fault(file.task, file.file_stem, file.path) {
        Some(words) => (r matches Err(e) && e@ == words) && new == old,
        None => exists|put_right: TaskRecord, changed: bool| #[trigger]
            is_recovered(file.task, now, put_right, changed) && is_read(
                old,
                put_right,
                changed,
                file.path,
                new,
                r,
            ),
    }
}

/// What [`TaskLoading::stored`] does.
pub open spec fn is_storing(old: TaskLoading, new: TaskLoading, fault: Option<Seq<char>>) -> bool {
    &&& new.held is None
    &&& is_taken_in(
        old.tasks@,
        old.held->Some_0.task,
        old.held->Some_0.path@,
        new.tasks@,
        fault,
    )
}

impl TaskLoading {
    /// Nothing has been read.
    pub fn new() -> (r: Self)
        ensures
            r.tasks@.len() == 0,
            r.held is None,
            r.wf(),
    {
        TaskLoading { tasks: Vec::new(), held: None }
    }

    /// No identifier stands twice, and nothing runs.
    pub open spec fn wf(self) -> bool {
        &&& ids_differ(self.tasks@)
        &&& none_runs(self.tasks@)
        &&& self.held matches Some(h) ==> h.task.status !is Running
    }

    fn take_in(&mut self, task: TaskRecord, path: &str) -> (r: Result<(), Failure>)
        requires
            old(self).wf(),
            task.status !is Running,
        ensures
            is_taken_in(
                old(self).tasks@,
                task,
                path@,
                final(self).tasks@,
                fault_of(r),
            ),
            final(self).held == old(self).held,
            final(self).wf(),
    {
        let ghost before = self.tasks@;
        let r = insert_loaded_task(&mut self.tasks, task, path);
        proof {
            if !has_task(before, task.id@) {
                assert(ids_differ(self.tasks@)) by {
                    assert forall|i: int, j: int| 0 <= i < j < self.tasks@.len() implies (
                    #[trigger] self.tasks@[i]).id@ != (#[trigger] self.tasks@[j]).id@ by {
                        assert(before[i] == self.tasks@[i]);
                    }
                }
            }
        }
        r
    }

    /// Puts a record right that was read from a file. One that this leaves as it is, is
    /// taken in. Another is held until it has been stored: then the result is `true`.
    pub fn read(&mut self, task: TaskRecord, file_stem: &str, path: &str, now: Timestamp) -> (r:
        Result<bool, Failure>)
        requires
            old(self).wf(),
            old(self).held is None,
        ensures
            final(self).wf(),
            is_reading(
                *old(self),
                (TaskFile { file_stem: file_stem@, path: path@, task }),
                now,
                *final(self),
                r,
            ),
    {
        let (put_right, changed) = match recover_task(task, file_stem, path, now) {
            Err(e) => {
                return Err(e);
            },
            Ok(result) => result,
        };
        assert(is_recovered(task, now, put_right, changed));
        proof {
            nothing_runs_after_a_restart(task, now, put_right, changed);
        }
        if changed {
            self.held = Some(HeldTask { task: put_right, path: copy_text(path) });
            return Ok(true);
        }
        match self.take_in(put_right, path) {
            Ok(_) => Ok(false),
            Err(e) => Err(e),
        }
    }

    /// Takes in the record that was held, now that it has been stored.
    pub fn stored(&mut self) -> (r: Result<(), Failure>)
        requires
            old(self).wf(),
            old(self).held is Some,
        ensures
            final(self).wf(),
            is_storing(*old(self), *final(self), fault_of(r)),
    {
        let mut held: Option<HeldTask> = None;
        std::mem::swap(&mut held, &mut self.held);
        match held {
            Some(h) => self.take_in(h.task, h.path.as_str()),
            None => Ok(()),
        }
    }

    /// What the manager knows once every record has been read.
    pub fn finish(self, stored_queue: Vec<String>) -> (r: Result<ManagerState, Failure>)
        requires
            self.wf(),
            self.held is None,
        ensures
            match keys_of(self.tasks@) {
                Err(words) => r matches Err(e) && e@ == words,
                Ok(keys) => {
                    &&& r matches Ok(state)
                    &&& state@.tasks == self.tasks@
                    &&& is_rebuilt_queue(self.tasks@, texts(stored_queue@), state@.queue)
                    &&& state@.keys == keys
                    &&& state@.running.len() == 0
                    &&& consistent(state@)
                    &&& none_runs(state@.tasks)
                },
            },
    {
        let ghost queue = texts(stored_queue@);
        let r = ManagerState::open(self.tasks, stored_queue);
        proof {
            if r is Ok {
                opened_states_are_consistent(r->Ok_0@, queue);
            }
        }
        r
    }
}

// Laws -----------------------------------------------------------------------
/// How one file is taken in: it is read, and stored where it had to be put right.
pub struct LoadMove {
    pub file: TaskFile,
    pub now: Timestamp,
    pub before: TaskLoading,
    pub read: TaskLoading,
    pub result: Result<bool, Failure>,
    pub after: TaskLoading,
    /// What stands in the way, if anything does.
    pub fault: Option<Seq<char>>,
}

impl LoadMove {
    pub open spec fn is_step(self) -> bool {
        &&& self.before.held is None
        &&& is_reading(self.before, self.file, self.now, self.read, self.result)
        &&& match self.result {
            Ok(true) => is_storing(self.read, self.after, self.fault),
            Ok(false) => self.after == self.read && self.fault is None,
            Err(e) => self.after == self.read && self.fault == Some(e@),
        }
    }

    /// The file as it is left behind.
    pub open spec fn left_behind(self) -> TaskFile {
        TaskFile {
            task: if self.result == Ok::<bool, Failure>(true) {
                self.read.held->Some_0.task
            } else {
                self.file.task
            },
            ..self.file
        }
    }
}

/// Files are taken in one after another, from nothing.
pub open spec fn is_load(moves: Seq<LoadMove>) -> bool {
    &&& moves.len() > 0 ==> moves[0].before.tasks@.len() == 0
    &&& forall|i: int| 0 <= i < moves.len() ==> (#[trigger] moves[i]).is_step()
    &&& forall|i: int, j: int|
        #![trigger moves[i], moves[j]]
        0 <= i && j == i + 1 && j < moves.len() ==> moves[j].before == moves[i].after
}

/// Nothing stood in the way of any file.
pub open spec fn went_well(moves: Seq<LoadMove>) -> bool {
    forall|i: int| 0 <= i < moves.len() ==> (#[trigger] moves[i]).fault is None
}

/// A file whose identity is sound and new is taken in, whatever its mode: a mode that is not
/// known fails its task, which keeps its identifier and its key, and stops no other. Every
/// task that is taken in has a known mode and does not run.
pub proof fn sound_files_are_taken_in(s: LoadMove)
    requires
        s.is_step(),
        identity_fault(s.file.task, s.file.file_stem, s.file.path) is None,
        !has_task(s.before.tasks@, s.file.task.id@),
    ensures
        s.result is Ok,
        s.fault is None,
        s.after.held is None,
        s.after.tasks@.len() == s.before.tasks@.len() + 1,
        s.after.tasks@.drop_last() == s.before.tasks@,
        s.after.tasks@.last().id == s.file.task.id,
        s.after.tasks@.last().idempotency_key == s.file.task.idempotency_key,
        is_task_mode(s.after.tasks@.last().mode@),
        s.after.tasks@.last().status !is Running,
        stored_task_mode(s.file.task.mode@) is None ==> s.after.tasks@.last().status is Failed
            && s.after.tasks@.last().mode@ == "agent"@,
        s.left_behind().task == s.after.tasks@.last(),
{
    let (put_right, changed) = choose|put_right: TaskRecord, changed: bool| #[trigger]
        is_recovered(s.file.task, s.now, put_right, changed) && is_read(
            s.before,
            put_right,
            changed,
            s.file.path,
            s.read,
            s.result,
        );
    nothing_runs_after_a_restart(s.file.task, s.now, put_right, changed);
    assert(s.after.tasks@ == s.before.tasks@.push(put_right));
    assert(s.after.tasks@.drop_last() =~= s.before.tasks@);
}

/// What is known of a file that nothing stood in the way of.
proof fn lemma_taken_in(s: LoadMove)
    requires
        s.is_step(),
        s.fault is None,
    ensures
        identity_fault(s.file.task, s.file.file_stem, s.file.path) is None,
        !has_task(s.before.tasks@, s.file.task.id@),
        exists|changed: bool| #[trigger]
            is_recovered(s.file.task, s.now, s.after.tasks@.last(), changed),
{
    let (put_right, changed) = choose|put_right: TaskRecord, changed: bool| #[trigger]
        is_recovered(s.file.task, s.now, put_right, changed) && is_read(
            s.before,
            put_right,
            changed,
            s.file.path,
            s.read,
            s.result,
        );
    nothing_runs_after_a_restart(s.file.task, s.now, put_right, changed);
    assert(is_recovered(s.file.task, s.now, put_right, changed));
    assert(s.after.tasks@.last() == put_right);
}

/// A load that went well holds a task for every file, in order.
proof fn lemma_loaded(moves: Seq<LoadMove>, n: int)
    requires
        is_load(moves),
        went_well(moves),
        0 < n <= moves.len(),
    ensures
        moves[n - 1].after.tasks@.len() == n,
        forall|i: int|
            #![trigger moves[n - 1].after.tasks@[i]]
            0 <= i < n ==> moves[n - 1].after.tasks@[i] == moves[i].left_behind().task,
        ids_differ(moves[n - 1].after.tasks@),
    decreases n,
{
    let s = moves[n - 1];
    assert(s.is_step());
    assert(s.fault is None);
    lemma_taken_in(s);
    sound_files_are_taken_in(s);
    if n > 1 {
        lemma_loaded(moves, n - 1);
        assert(s.before == moves[n - 2].after);
    }
    let (old, new) = (s.before.tasks@, s.after.tasks@);
    assert forall|i: int| #![trigger new[i]] 0 <= i < n implies new[i] == moves[i].left_behind().task by {
        if i < n - 1 {
            assert(new[i] == new.drop_last()[i]);
            assert(moves[n - 2].after.tasks@[i] == moves[i].left_behind().task);
        }
    }
    assert forall|i: int, j: int| 0 <= i < j < new.len() implies (#[trigger] new[i]).id@ != (
    #[trigger] new[j]).id@ by {
        assert(new[i] == new.drop_last()[i]);
        if j < n - 1 {
            assert(new[j] == new.drop_last()[j]);
            assert(old[i].id@ != old[j].id@);
        } else {
            assert(old[i].id@ != s.file.task.id@);
        }
    }
}

/// Whether the files that are read now are among those that `first` left behind, each once,
/// in whatever order: `places[i]` says which one the file `i` is.
pub open spec fn reads_again(
    first: Seq<LoadMove>,
    second: Seq<LoadMove>,
    places: Seq<int>,
) -> bool {
    &&& places.len() == second.len()
    &&& forall|i: int|
        #![trigger places[i]]
        0 <= i < places.len() ==> 0 <= places[i] < first.len() && second[i].file
            == first[places[i]].left_behind()
    &&& places.no_duplicates()
}

proof fn lemma_read_again(
    first: Seq<LoadMove>,
    second: Seq<LoadMove>,
    places: Seq<int>,
    n: int,
)
    requires
        is_load(first),
        went_well(first),
        is_load(second),
        reads_again(first, second, places),
        0 < n <= second.len(),
    ensures
        second[n - 1].result == Ok::<bool, Failure>(false),
        second[n - 1].fault is None,
        second[n - 1].after.tasks@.len() == n,
        forall|i: int|
            #![trigger second[n - 1].after.tasks@[i]]
            0 <= i < n ==> second[n - 1].after.tasks@[i] == first.last().after.tasks@[places[i]],
    decreases n,
{
    let s = second[n - 1];
    let loaded = first.last().after.tasks@;
    let place = places[n - 1];
    let m = first[place];
    assert(s.is_step() && m.is_step() && m.fault is None);
    lemma_loaded(first, first.len() as int);
    assert(loaded[place] == m.left_behind().task);
    if n > 1 {
        lemma_read_again(first, second, places, n - 1);
        assert(s.before == second[n - 2].after);
    }
    let old = s.before.tasks@;
    lemma_taken_in(m);
    sound_files_are_taken_in(m);
    let task = s.file.task;
    assert(task == m.after.tasks@.last());
    let changed = choose|changed: bool| #[trigger]
        is_recovered(m.file.task, m.now, m.after.tasks@.last(), changed);
    if has_task(old, task.id@) {
        let i = choose|i: int| 0 <= i < old.len() && (#[trigger] old[i]).id@ == task.id@;
        assert(old[i] == loaded[places[i]]);
        assert(places[i] != places[n - 1]);
        let (a, b) = (places[i], place);
        if a < b {
            assert(loaded[a].id@ != loaded[b].id@);
        } else {
            assert(loaded[b].id@ != loaded[a].id@);
        }
    }
    assert(identity_fault(task, s.file.file_stem, s.file.path) is None) by {
        assert(task.schema_version == m.file.task.schema_version);
    }
    sound_files_are_taken_in(s);
    lemma_taken_in(s);
    let (put_right, changed_again) = choose|put_right: TaskRecord, changed: bool| #[trigger]
        is_recovered(task, s.now, put_right, changed) && is_read(
            s.before,
            put_right,
            changed,
            s.file.path,
            s.read,
            s.result,
        );
    recovery_is_done_once(
        m.file.task,
        m.now,
        task,
        changed,
        s.now,
        put_right,
        changed_again,
    );
    let new = s.after.tasks@;
    assert forall|i: int| #![trigger new[i]] 0 <= i < n implies new[i] == loaded[places[i]] by {
        if i < n - 1 {
            assert(new[i] == new.drop_last()[i]);
            assert(second[n - 2].after.tasks@[i] == loaded[places[i]]);
        }
    }
}

/// Once tasks have been read back, reading what was left behind once more, in whatever order,
/// gives the same tasks, and none has to be stored again.
pub proof fn reading_again_changes_nothing(
    first: Seq<LoadMove>,
    second: Seq<LoadMove>,
    places: Seq<int>,
)
    requires
        is_load(first),
        went_well(first),
        is_load(second),
        reads_again(first, second, places),
        second.len() > 0,
    ensures
        forall|i: int|
            0 <= i < second.len() ==> (#[trigger] second[i]).result == Ok::<bool, Failure>(false)
                && second[i].fault is None,
        second.last().after.tasks@.len() == second.len(),
        forall|i: int|
            #![trigger second.last().after.tasks@[i]]
            0 <= i < second.len() ==> second.last().after.tasks@[i]
                == first.last().after.tasks@[places[i]],
{
    assert forall|i: int| 0 <= i < second.len() implies (#[trigger] second[i]).result == Ok::<
        bool,
        Failure,
    >(false) && second[i].fault is None by {
        lemma_read_again(first, second, places, i + 1);
    }
    lemma_read_again(first, second, places, second.len() as int);
}

proof fn lemma_same_waiting(a: Seq<TaskRecord>, b: Seq<TaskRecord>, places: Seq<int>)
    requires
        a.len() == b.len(),
        places.len() == b.len(),
        forall|i: int| 0 <= i < places.len() ==> 0 <= #[trigger] places[i] < a.len(),
        places.no_duplicates(),
        forall|i: int| #![trigger b[i]] 0 <= i < b.len() ==> b[i] == a[places[i]],
    ensures
        forall|id: Seq<char>| #[trigger] has_queued(a, id) == has_queued(b, id),
{
    assert forall|id: Seq<char>| #[trigger] has_queued(a, id) == has_queued(b, id) by {
        if has_queued(a, id) {
            let i = choose|i: int|
                0 <= i < a.len() && (#[trigger] a[i]).id@ == id && a[i].status is Queued;
            lemma_permutation_hits(places, a.len() as int, i);
            let k = choose|k: int| 0 <= k < places.len() && places[k] == i;
            assert(b[k] == a[places[k]]);
        }
        if has_queued(b, id) {
            let k = choose|k: int|
                0 <= k < b.len() && (#[trigger] b[k]).id@ == id && b[k].status is Queued;
            assert(a[places[k]].id@ == id);
        }
    }
}

/// The queue is the same, too: the stored one has not changed, or it is the one that came of
/// the first reading.
pub proof fn reading_again_keeps_the_queue(
    first: Seq<LoadMove>,
    second: Seq<LoadMove>,
    places: Seq<int>,
    stored: Seq<Seq<char>>,
    queue: Seq<Seq<char>>,
    again: Seq<Seq<char>>,
)
    requires
        is_load(first),
        went_well(first),
        is_load(second),
        reads_again(first, second, places),
        second.len() == first.len(),
        first.len() > 0,
        is_rebuilt_queue(first.last().after.tasks@, stored, queue),
        is_rebuilt_queue(second.last().after.tasks@, stored, again) || is_rebuilt_queue(
            second.last().after.tasks@,
            queue,
            again,
        ),
    ensures
        again == queue,
{
    reading_again_changes_nothing(first, second, places);
    lemma_loaded(first, first.len() as int);
    assert(went_well(second)) by {
        assert forall|i: int| 0 <= i < second.len() implies (#[trigger] second[i]).fault is None by {
            assert(second[i].result == Ok::<bool, Failure>(false));
        }
    }
    lemma_loaded(second, second.len() as int);
    let (a, b) = (first.last().after.tasks@, second.last().after.tasks@);
    lemma_same_waiting(a, b, places);
    if is_rebuilt_queue(b, stored, again) {
        a_queue_is_rebuilt_in_one_way(a, b, stored, queue, again);
    } else {
        rebuilt_queues_are_stable(a, stored, queue);
        a_queue_is_rebuilt_in_one_way(a, b, queue, queue, again);
    }
}

} // verus!
