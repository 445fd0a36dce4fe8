//! What is accepted of stored files and records, and what is made of the rest: journals, runs, tasks
//! and the queue.
use vstd::prelude::*;
use vstd::string::*;

use crate::automation::{id_mismatch, mode_fault, mode_refusal, newer_schema};
use crate::failure::Failure;
use crate::ids::uuid_of;
use crate::order::{arranges, is_sorted_from, sorting_keeps_the_items};
use crate::pending::{
    created_earlier, is_sound, pending_fault, sound_records, JournalFile, PendingEnqueueRecord,
};
use crate::protection::blocked_words;
use crate::resumption::{is_taken_up, RecoveryRound};
use crate::run_index::{
    limited, missing_run, newest_first, unsettled, AutomationRunIndex, IndexedRun,
};
use crate::run_reading::{
    are_wanted, is_as_indexed, reading_fault, stale_words, still_stale, ReadingAction,
    ReadingEvent, ReadingMove, ReadingStage, RunQuery,
};
use crate::storage_id::is_safe_id;
use crate::task::{stored_mode_refusal, TaskRecord};
use crate::task_loading::{
    is_read, is_reading, is_storing, is_taken_in, TaskFile, TaskLoading,
};
use crate::task_recovery::{
    forgotten, has_queued, has_task, id_order, identity_fault, is_rebuilt_queue, is_recovered,
    prune_marker_fault, still_waiting,
};
use crate::text::{dec, dec_int, lex_less, texts};
use crate::time::Timestamp;

verus! {

// The journal ----------------------------------------------------------------
/// A journal record may stand under two names just where its layout is known, its names are its
/// own and may name files, and its identifier and its key are those of its kind: of its slot's time
/// in microseconds, or of the invocation that its identifier holds.
pub proof fn sound_journal_records_are_named_after_their_run(
    record: PendingEnqueueRecord,
    automation_id: Seq<char>,
    run_id: Seq<char>,
)
    requires
        pending_fault(record, automation_id, run_id) is None,
    ensures
        record.schema_version <= 1 && record.run.schema_version <= 1,
        automation_id.len() > 0 && is_safe_id(automation_id),
        run_id.len() > 0 && is_safe_id(run_id),
        record.run.automation_id@ == automation_id,
        record.run.id@ == run_id,
        record.kind is Scheduled ==> {
            let micros = record.run.scheduled_for.secs * 1_000_000
                + record.run.scheduled_for.nanos as int / 1_000;
            &&& run_id == "slot_"@ + dec_int(micros)
            &&& record.slot_key@ == "automation:"@ + automation_id + ":slot:"@ + dec_int(micros)
        },
        record.kind is Manual ==> exists|invocation: Seq<char>|
            {
                &&& run_id == #[trigger] ("manual_"@ + invocation)
                &&& record.slot_key@ == "automation:"@ + automation_id + ":manual:"@ + invocation
                &&& uuid_of(run_id.skip(7)) == Some(invocation)
            },
{
    reveal_strlit("manual_");
    if record.kind is Manual {
        let invocation = uuid_of(record.run.id@.skip("manual_"@.len() as int))->Some_0;
        assert(run_id == "manual_"@ + invocation);
    }
}

/// A journal record of a slot whose names are all its own is accepted.
pub proof fn own_names_are_accepted(record: PendingEnqueueRecord)
    requires
        record.schema_version <= 1 && record.run.schema_version <= 1,
        record.run.automation_id@.len() > 0 && is_safe_id(record.run.automation_id@),
        record.run.id@.len() > 0 && is_safe_id(record.run.id@),
        record.kind is Scheduled,
        ({
            let micros = record.run.scheduled_for.secs * 1_000_000
                + record.run.scheduled_for.nanos as int / 1_000;
            &&& record.run.id@ == "slot_"@ + dec_int(micros)
            &&& record.slot_key@ == "automation:"@ + record.run.automation_id@ + ":slot:"@
                + dec_int(micros)
        }),
    ensures
        pending_fault(record, record.run.automation_id@, record.run.id@) is None,
{
}

proof fn lemma_sound_records(
    automation_id: Seq<char>,
    files: Seq<JournalFile>,
    record: PendingEnqueueRecord,
)
    ensures
        sound_records(automation_id, files).contains(record) <==> exists|i: int|
            0 <= i < files.len() && is_sound(automation_id, #[trigger] files[i])
                && files[i]->record == record,
    decreases files.len(),
{
    if files.len() > 0 {
        let init = files.drop_last();
        let before = sound_records(automation_id, init);
        let all = sound_records(automation_id, files);
        let n = files.len() - 1;
        lemma_sound_records(automation_id, init, record);
        if all.contains(record) {
            let k = choose|k: int| 0 <= k < all.len() && all[k] == record;
            if k < before.len() {
                assert(before[k] == record);
                let i = choose|i: int|
                    0 <= i < init.len() && is_sound(automation_id, #[trigger] init[i])
                        && init[i]->record == record;
                assert(files[i] == init[i]);
            } else {
                assert(is_sound(automation_id, files[n]));
            }
        }
        if exists|i: int|
            0 <= i < files.len() && is_sound(automation_id, #[trigger] files[i])
                && files[i]->record == record {
            let i = choose|i: int|
                0 <= i < files.len() && is_sound(automation_id, #[trigger] files[i])
                    && files[i]->record == record;
            if i < n {
                assert(init[i] == files[i]);
                let k = choose|k: int| 0 <= k < before.len() && before[k] == record;
                assert(all[k] == record);
            } else {
                assert(all[before.len() as int] == record);
            }
        }
    }
}

/// What a journal gives is every record in it that may stand there, what was written first before
/// the others.
pub proof fn journals_give_what_came_first_first(
    automation_id: Seq<char>,
    files: Seq<JournalFile>,
    r: Seq<PendingEnqueueRecord>,
    record: PendingEnqueueRecord,
)
    requires
        is_sorted_from(sound_records(automation_id, files), r, created_earlier()),
    ensures
        r.contains(record) <==> exists|i: int|
            0 <= i < files.len() && is_sound(automation_id, #[trigger] files[i])
                && files[i]->record == record,
        forall|i: int, j: int|
            #![trigger r[i], r[j]]
            0 <= i < j < r.len() ==> r[i].run.created_at.secs < r[j].run.created_at.secs || (
            r[i].run.created_at.secs == r[j].run.created_at.secs && r[i].run.created_at.nanos
                <= r[j].run.created_at.nanos),
{
    let list = sound_records(automation_id, files);
    lemma_sound_records(automation_id, files, record);
    sorting_keeps_the_items(list, r, created_earlier());
    let p = choose|p: Seq<int>| #[trigger] arranges(p, list, r, created_earlier());
    assert forall|i: int, j: int|
        #![trigger r[i], r[j]]
        0 <= i < j < r.len() implies r[i].run.created_at.secs < r[j].run.created_at.secs || (
    r[i].run.created_at.secs == r[j].run.created_at.secs && r[i].run.created_at.nanos
        <= r[j].run.created_at.nanos) by {
        assert(p[i] != p[j]);
        assert(!(created_earlier())(r[j], r[i]));
    }
}

/// A journal that could be read and holds nothing but sound records is taken up whole; any other is
/// left alone, and its automation is left out.
pub proof fn journals_are_taken_up_whole_or_not_at_all(
    old: RecoveryRound,
    automation_id: Seq<char>,
    scan: Option<(Vec<PendingEnqueueRecord>, bool)>,
    new: RecoveryRound,
    r: Seq<PendingEnqueueRecord>,
)
    requires
        is_taken_up(old, automation_id, scan, new, r),
    ensures
        scan matches Some((records, invalid)) ==> (!invalid ==> r == records@ && new.blocked
            == old.blocked) && (invalid ==> r.len() == 0 && new.left_out(automation_id)),
        scan is None ==> r.len() == 0 && new.left_out(automation_id),
        new.recovered == old.recovered,
{
    if texts(new.blocked@) == texts(old.blocked@).push(automation_id) {
        let n = texts(old.blocked@).len() as int;
        assert(texts(new.blocked@)[n] == automation_id);
    }
}

// Runs -----------------------------------------------------------------------
/// A run that was read is what the index led to expect where both say the same of its creation and
/// its status and, in a listing, of its end once it is over.
pub proof fn runs_are_taken_as_indexed(
    query: RunQuery,
    wanted: IndexedRun,
    run: crate::automation::AutomationRunRecord,
)
    ensures
        is_as_indexed(query, wanted, run) ==> run.created_at == wanted.entry.created_at
            && run.status == wanted.entry.status,
        query is Unsettled && run.created_at == wanted.entry.created_at && run.status
            == wanted.entry.status ==> is_as_indexed(query, wanted, run),
        query is Listing ==> (is_as_indexed(query, wanted, run) <==> run.created_at
            == wanted.entry.created_at && run.status == wanted.entry.status && (
        run.status is Completed || run.status is Failed || run.status is Canceled ==> run.ended_at
            == wanted.entry.terminal_at)),
        reading_fault(query, wanted, Ok(None)) == Some(
            "Run index references missing run '"@ + wanted.id@ + "'"@,
        ),
        reading_fault(query, wanted, Ok(Some(run))) is None <==> is_as_indexed(query, wanted, run),
{
}

/// What follows each event of a reading: the runs that are wanted are read one after the other, in
/// order; what does not agree with the index has it made anew, once.
pub proof fn readings_take_one_course(s: ReadingMove)
    requires
        s.is_step(),
    ensures
        s.after.automation_id == s.before.automation_id && s.after.query == s.before.query,
        s.event is Begun && s.before.query == (RunQuery::Listing { limit: Some(0) })
            && s.before.automation_id@.len() > 0 && is_safe_id(s.before.automation_id@) ==> (
        s.action matches ReadingAction::Finish { runs, .. } && runs@.len() == 0),
        s.event is Begun && s.before.query != (RunQuery::Listing { limit: Some(0) })
            && s.before.automation_id@.len() > 0 && is_safe_id(s.before.automation_id@)
            ==> s.action is LoadIndex,
        s.event is Begun && (s.before.automation_id@.len() == 0 || !is_safe_id(
            s.before.automation_id@,
        )) ==> s.action is Fail,
        s.event matches ReadingEvent::IndexLoaded(Err(why)) ==> (
        s.action matches ReadingAction::Fail(e) && e@ == why@),
        s.event is Marked ==> s.action is RebuildIndex,
        s.event matches ReadingEvent::IndexRebuilt(Err(_)) ==> s.action is Fail,
        s.event matches ReadingEvent::RunLoaded(loaded) ==> (
        s.before.stage matches ReadingStage::LoadingRun { wanted, taken, latest, stale } && {
            let fault = reading_fault(s.before.query, wanted@[taken@.len() as int], loaded);
            &&& fault is Some && stale is Some ==> s.action is Fail
            &&& fault is Some && stale is None && s.before.query is Listing ==> s.action is MarkDirty
            &&& fault is Some && stale is None && s.before.query is Unsettled
                ==> s.action is RebuildIndex
            &&& fault is None && taken@.len() + 1 < wanted@.len() ==> (
            s.action matches ReadingAction::LoadRun { run_id } && run_id@ == wanted@[taken@.len()
                as int + 1].id@)
            &&& fault is None && taken@.len() + 1 >= wanted@.len() ==> (
            s.action matches ReadingAction::Finish { runs, latest: l } && runs@ == taken@.push(
                loaded->Ok_0->Some_0,
            ) && l == latest)
        }),
{
    if s.event is Begun && s.before.automation_id@.len() > 0 {
        assert(is_safe_id(s.before.automation_id@) || s.action is Fail);
    }
}

// Tasks ----------------------------------------------------------------------
/// A task's file is accepted just where its identifier may name a file, the file is named after it,
/// and its layout is known; and so is the marker of its removal, but for the layout.
pub proof fn files_are_named_after_their_task(
    task: TaskRecord,
    task_id: Seq<char>,
    file_stem: Seq<char>,
    path: Seq<char>,
)
    ensures
        identity_fault(task, file_stem, path) is None <==> task.id@.len() > 0 && is_safe_id(task.id@)
            && file_stem == task.id@ && task.schema_version <= 3,
        prune_marker_fault(task_id, file_stem, path) is None <==> task_id.len() > 0 && is_safe_id(
            task_id,
        ) && file_stem == task_id,
{
}

/// A record is taken in at the end unless its identifier is known; then nothing changes.
pub proof fn known_tasks_are_not_taken_in_twice(
    old: Seq<TaskRecord>,
    task: TaskRecord,
    path: Seq<char>,
    new: Seq<TaskRecord>,
    fault: Option<Seq<char>>,
)
    requires
        is_taken_in(old, task, path, new, fault),
    ensures
        (exists|i: int| 0 <= i < old.len() && (#[trigger] old[i]).id@ == task.id@) ==> new == old
            && fault == Some(
            "Duplicate persisted task id '"@ + task.id@ + "' while loading "@ + path,
        ),
        (forall|i: int| 0 <= i < old.len() ==> (#[trigger] old[i]).id@ != task.id@) ==> new
            == old.push(task) && fault is None,
{
    if exists|i: int| 0 <= i < old.len() && (#[trigger] old[i]).id@ == task.id@ {
        assert(has_task(old, task.id@));
    }
}

/// A record that had to be stored is taken in once it is, and is held no more.
pub proof fn stored_records_are_taken_in(
    old: TaskLoading,
    new: TaskLoading,
    fault: Option<Seq<char>>,
)
    requires
        is_storing(old, new, fault),
        old.held is Some,
    ensures
        new.held is None,
        is_taken_in(
            old.tasks@,
            old.held->Some_0.task,
            old.held->Some_0.path@,
            new.tasks@,
            fault,
        ),
{
}

// The queue ------------------------------------------------------------------
proof fn lemma_waiting(
    queue: Seq<Seq<char>>,
    keep: spec_fn(Seq<char>) -> bool,
    i: int,
) -> (k: int)
    requires
        0 <= i < queue.filter(keep).len(),
    ensures
        0 <= k < queue.len(),
        queue[k] == queue.filter(keep)[i],
        keep(queue[k]),
        queue.take(k).filter(keep).len() == i,
    decreases queue.len(),
{
    reveal(Seq::filter);
    let init = queue.drop_last();
    let before = init.filter(keep);
    if i < before.len() {
        let k = lemma_waiting(init, keep, i);
        assert(queue.take(k) =~= init.take(k));
        k
    } else {
        assert(queue.take(queue.len() - 1) =~= init);
        queue.len() - 1
    }
}

proof fn lemma_filter_grows(queue: Seq<Seq<char>>, keep: spec_fn(Seq<char>) -> bool, m: int, n: int)
    requires
        0 <= m <= n <= queue.len(),
    ensures
        queue.take(m).filter(keep).len() <= queue.take(n).filter(keep).len(),
    decreases n - m,
{
    reveal(Seq::filter);
    if m < n {
        lemma_filter_grows(queue, keep, m, n - 1);
        assert(queue.take(n).drop_last() =~= queue.take(n - 1));
    }
}

/// What still waits keeps the order that it had in the stored queue.
pub proof fn the_stored_order_is_kept(
    tasks: Seq<TaskRecord>,
    stored: Seq<Seq<char>>,
    i: int,
    j: int,
)
    requires
        0 <= i < j < still_waiting(tasks, stored).len(),
    ensures
        exists|m: int, n: int|
            {
                &&& 0 <= m < n < stored.len()
                &&& #[trigger] stored[m] == still_waiting(tasks, stored)[i]
                &&& #[trigger] stored[n] == still_waiting(tasks, stored)[j]
            },
        exists|k: int|
            0 <= k < tasks.len() && (#[trigger] tasks[k]).id@ == still_waiting(tasks, stored)[i]
                && tasks[k].status is Queued,
{
    let keep = |id: Seq<char>| has_queued(tasks, id);
    let m = lemma_waiting(stored, keep, i);
    let n = lemma_waiting(stored, keep, j);
    if m >= n {
        lemma_filter_grows(stored, keep, n, m);
    }
    assert(stored[m] == still_waiting(tasks, stored)[i]);
    assert(stored[n] == still_waiting(tasks, stored)[j]);
}

/// The queue after a restart is what still waits, and after it what was forgotten, in the order of
/// identifiers.
pub proof fn forgotten_tasks_come_last(
    tasks: Seq<TaskRecord>,
    stored: Seq<Seq<char>>,
    queue: Seq<Seq<char>>,
)
    requires
        is_rebuilt_queue(tasks, stored, queue),
    ensures
        ({
            let n = still_waiting(tasks, stored).len() as int;
            &&& n <= queue.len()
            &&& queue.take(n) == still_waiting(tasks, stored)
            &&& forall|i: int, j: int|
                #![trigger queue[i], queue[j]]
                n <= i < j < queue.len() ==> !lex_less(queue[j], queue[i])
        }),
{
    let kept = still_waiting(tasks, stored);
    let given = forgotten(tasks, kept);
    let extra = choose|extra: Seq<Seq<char>>| #[trigger]
        is_sorted_from(given, extra, id_order()) && queue == kept + extra;
    let n = kept.len() as int;
    assert(queue.take(n) =~= kept);
    let p = choose|p: Seq<int>| #[trigger] arranges(p, given, extra, id_order());
    assert forall|i: int, j: int|
        #![trigger queue[i], queue[j]]
        n <= i < j < queue.len() implies !lex_less(queue[j], queue[i]) by {
        assert(queue[i] == extra[i - n]);
        assert(queue[j] == extra[j - n]);
        assert(p[i - n] != p[j - n]);
        assert(!(id_order())(extra[j - n], extra[i - n]));
    }
}

/// An index offers a listing its runs, the newest first and as many as it may show, and a look at
/// what is open all runs that are not settled.
pub proof fn indexes_offer_what_is_asked_for(
    query: RunQuery,
    index: AutomationRunIndex,
    wanted: Seq<IndexedRun>,
)
    requires
        are_wanted(query, index, wanted),
    ensures
        query is Unsettled ==> wanted == unsettled(index.entries@),
        query matches RunQuery::Listing { limit } ==> {
            &&& limit is None ==> wanted.len() == index.entries@.len()
            &&& limit matches Some(n) ==> wanted.len() == (if n < index.entries@.len() {
                n as nat
            } else {
                index.entries@.len()
            })
            &&& forall|i: int, j: int|
                #![trigger wanted[i], wanted[j]]
                0 <= i < j < wanted.len() ==> wanted[i].entry.created_at.secs
                    > wanted[j].entry.created_at.secs || (wanted[i].entry.created_at.secs
                    == wanted[j].entry.created_at.secs && wanted[i].entry.created_at.nanos
                    >= wanted[j].entry.created_at.nanos)
        },
{
    if let RunQuery::Listing { limit } = query {
        let all = choose|all: Seq<IndexedRun>| #[trigger]
            is_sorted_from(index.entries@, all, newest_first()) && wanted == limited(all, limit);
        let p = choose|p: Seq<int>| #[trigger] arranges(p, index.entries@, all, newest_first());
        assert forall|i: int, j: int|
            #![trigger wanted[i], wanted[j]]
            0 <= i < j < wanted.len() implies wanted[i].entry.created_at.secs
            > wanted[j].entry.created_at.secs || (wanted[i].entry.created_at.secs
            == wanted[j].entry.created_at.secs && wanted[i].entry.created_at.nanos
            >= wanted[j].entry.created_at.nanos) by {
            assert(wanted[i] == all[i] && wanted[j] == all[j]);
            assert(p[i] != p[j]);
            assert(!(newest_first())(all[j], all[i]));
        }
    }
}

/// An index that was loaded or made anew is read from the first run that is wanted on; where none
/// is, the reading is over.
pub proof fn readings_begin_with_the_first_run(s: ReadingMove, index: AutomationRunIndex)
    requires
        s.is_step(),
        s.event == ReadingEvent::IndexLoaded(Ok(index)) || s.event == ReadingEvent::IndexRebuilt(
            Ok(index),
        ),
    ensures
        exists|wanted: Seq<IndexedRun>| #[trigger]
            are_wanted(s.before.query, index, wanted) && (if wanted.len() == 0 {
                s.action matches ReadingAction::Finish { runs, latest } && runs@.len() == 0
                    && latest == index.latest_terminal_at
            } else {
                (s.action matches ReadingAction::LoadRun { run_id } && run_id@ == wanted[0].id@) && (
                s.after.stage matches ReadingStage::LoadingRun { wanted: w, taken, latest, stale }
                    && w@ == wanted && taken@.len() == 0 && latest == index.latest_terminal_at && (
                stale is None <==> s.event is IndexLoaded))
            }),
{
}

/// The words for what could not be read, and for an index that stayed out of date.
pub proof fn readings_say_what_went_wrong(
    wanted: IndexedRun,
    run: crate::automation::AutomationRunRecord,
    first: Seq<char>,
    again: Seq<char>,
)
    ensures
        reading_fault(RunQuery::Unsettled, wanted, Ok(Some(run))) matches Some(words) ==> words
            == "Run index metadata for '"@ + wanted.id@ + "' is stale"@,
        reading_fault(RunQuery::Listing { limit: None }, wanted, Ok(Some(run))) matches Some(words)
            ==> words == "Run index metadata for '"@ + run.id@
            + "' does not match its authority record"@,
        still_stale(RunQuery::Unsettled, first, again)
            == "Run index remained stale after rebuild: "@ + first,
        still_stale(RunQuery::Listing { limit: None }, first, again) == again,
        stale_words(RunQuery::Unsettled, first) == "Run index active snapshot was stale: "@ + first,
        stale_words(RunQuery::Listing { limit: None }, first) == "Run index was stale: "@ + first,
{
}

/// A file of a task that is not named after it, or that is too new, is refused and changes nothing;
/// a record that had to be put right is held until it is stored; any other is taken in as it is.
pub proof fn task_files_are_refused_held_or_taken_in(
    old: TaskLoading,
    file: TaskFile,
    now: Timestamp,
    new: TaskLoading,
    r: Result<bool, Failure>,
)
    requires
        is_reading(old, file, now, new, r),
    ensures
        identity_fault(file.task, file.file_stem, file.path) is Some ==> r is Err && new == old,
        identity_fault(file.task, file.file_stem, file.path) is None ==> exists|
            right: TaskRecord,
            changed: bool,
        | #[trigger]
            is_recovered(file.task, now, right, changed) && (changed ==> r == Ok::<bool, Failure>(
                true,
            ) && new.tasks == old.tasks && (new.held matches Some(h) && h.task == right && h.path@
                == file.path)) && (!changed ==> new.held is None && right == file.task && (
            forall|i: int|
                0 <= i < old.tasks@.len() ==> (#[trigger] old.tasks@[i]).id@ != right.id@) ==> r
                == Ok::<bool, Failure>(false) && new.tasks@ == old.tasks@.push(right)),
{
    if identity_fault(file.task, file.file_stem, file.path) is None {
        let (right, changed) = choose|right: TaskRecord, changed: bool| #[trigger]
            is_recovered(file.task, now, right, changed) && is_read(
                old,
                right,
                changed,
                file.path,
                new,
                r,
            );
        assert(is_recovered(file.task, now, right, changed));
    }
}

/// The words for records that are too new, not named after themselves, or in a mode that does not
/// exist.
pub proof fn faults_say_what_is_wrong(
    what: Seq<char>,
    found: u32,
    supported: u32,
    id: Seq<char>,
    other: Seq<char>,
)
    ensures
        newer_schema(what, found, supported) == what + " schema v"@ + dec(found as nat)
            + " is newer than supported v"@ + dec(supported as nat),
        id_mismatch(id, other) == "Automation id '"@ + id + "' does not match file stem '"@ + other
            + "'"@,
        mode_refusal(id) == "Invalid automation mode '"@ + id
            + "'. Expected one of: agent, plan, yolo"@,
        stored_mode_refusal(id) == "Invalid persisted task mode '"@ + id
            + "'. Expected one of: agent, plan, yolo"@,
        mode_fault(Some(id)) is None <==> id == "agent"@ || id == "plan"@ || id == "yolo"@,
        mode_fault(Some(id)) is Some ==> mode_fault(Some(id)) == Some(mode_refusal(id)),
        mode_fault(None) is None,
        missing_run(id) == "Run index references missing run '"@ + id + "'"@,
        blocked_words(id)
            == "Task pruning blocked by invalid pending enqueue records for automation '"@ + id
            + "'"@,
{
}

} // verus!
