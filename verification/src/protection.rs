//! The tasks that automations still need: those of stored runs, and those of runs that
//! are about to be queued.
use vstd::prelude::*;
use vstd::string::*;

use crate::automation::AutomationRunRecord;
use crate::failure::Failure;
use crate::order::is_sorted_from;
use crate::pending::PendingEnqueueRecord;
use crate::storage_id::{ensure_safe_storage_id, storage_id_fault};
use crate::task_recovery::{id_order, sort_ids};
use crate::text::{contains_text, copy_text, join3, text_opt, texts};

verus! {

/// What was read of one automation's journal.
#[derive(Debug)]
pub struct JournalScan {
    pub automation_id: String,
    pub records: Vec<PendingEnqueueRecord>,
    /// Whether there is a record that cannot be read or is not valid.
    pub blocked: bool,
}

/// One of the runs has the task.
pub open spec fn some_run_has(runs: Seq<AutomationRunRecord>, task: Seq<char>) -> bool {
    exists|i: int| 0 <= i < runs.len() && text_opt((#[trigger] runs[i]).task_id) == Some(task)
}

/// One of the journal records has the task.
pub open spec fn some_record_has(records: Seq<PendingEnqueueRecord>, task: Seq<char>) -> bool {
    exists|i: int|
        0 <= i < records.len() && text_opt((#[trigger] records[i]).run.task_id) == Some(task)
}

/// One of the automations has a journal record with the task.
pub open spec fn some_journal_has(scans: Seq<JournalScan>, task: Seq<char>) -> bool {
    exists|i: int| 0 <= i < scans.len() && some_record_has((#[trigger] scans[i]).records@, task)
}

/// The words that say that a journal cannot be trusted.
pub open spec fn blocked_words(automation_id: Seq<char>) -> Seq<char> {
    "Task pruning blocked by invalid pending enqueue records for automation '"@ + automation_id
        + "'"@
}

/// The first automation whose journal cannot be trusted.
pub open spec fn first_blocked(scans: Seq<JournalScan>) -> Option<Seq<char>>
    decreases scans.len(),
{
    if scans.len() == 0 {
        None
    } else if scans[0].blocked {
        Some(scans[0].automation_id@)
    } else {
        first_blocked(scans.drop_first())
    }
}

fn note(list: &mut Vec<String>, task: &Option<String>)
    requires
        texts(old(list)@).no_duplicates(),
    ensures
        texts(final(list)@).no_duplicates(),
        forall|t: Seq<char>| #[trigger]
            texts(final(list)@).contains(t) <==> texts(old(list)@).contains(t) || text_opt(*task)
                == Some(t),
{
    if let Some(id) = task {
        if !contains_text(list, id.as_str()) {
            let ghost before = texts(list@);
            list.push(copy_text(id.as_str()));
            assert(texts(list@) == before.push(id@));
            assert forall|t: Seq<char>| #[trigger]
                texts(list@).contains(t) <==> before.contains(t) || id@ == t by {
                if before.contains(t) {
                    let k = choose|k: int| 0 <= k < before.len() && before[k] == t;
                    assert(texts(list@)[k] == t);
                }
                assert(texts(list@)[before.len() as int] == id@);
            }
        }
    }
}

fn note_records(list: &mut Vec<String>, records: &Vec<PendingEnqueueRecord>)
    requires
        texts(old(list)@).no_duplicates(),
    ensures
        texts(final(list)@).no_duplicates(),
        forall|t: Seq<char>| #[trigger]
            texts(final(list)@).contains(t) <==> texts(old(list)@).contains(t) || some_record_has(
                records@,
                t,
            ),
{
    let ghost start = texts(list@);
    let mut i: usize = 0;
    while i < records.len()
        invariant
            i <= records@.len(),
            texts(list@).no_duplicates(),
            forall|t: Seq<char>| #[trigger]
                texts(list@).contains(t) <==> start.contains(t) || exists|k: int|
                    0 <= k < i && text_opt((#[trigger] records@[k]).run.task_id) == Some(t),
        decreases records@.len() - i,
    {
        note(list, &records[i].run.task_id);
        i += 1;
    }
}

/// The tasks that must not be forgotten, each once.
pub fn protected_task_ids(scans: &Vec<JournalScan>, runs: &Vec<AutomationRunRecord>) -> (r: Result<
    Vec<String>,
    Failure,
>)
    ensures
        match first_blocked(scans@) {
            Some(id) => r matches Err(e) && e@ == blocked_words(id),
            None => r matches Ok(list) && {
                &&& texts(list@).no_duplicates()
                &&& forall|t: Seq<char>| #[trigger]
                    texts(list@).contains(t) <==> some_journal_has(scans@, t) || some_run_has(
                        runs@,
                        t,
                    )
            },
        },
{
    let mut list: Vec<String> = Vec::new();
    assert(texts(list@) == Seq::<Seq<char>>::empty());
    let mut i: usize = 0;
    assert(scans@.skip(0) == scans@);
    while i < scans.len()
        invariant
            i <= scans@.len(),
            first_blocked(scans@) == first_blocked(scans@.skip(i as int)),
            texts(list@).no_duplicates(),
            forall|t: Seq<char>| #[trigger]
                texts(list@).contains(t) <==> exists|k: int|
                    0 <= k < i && some_record_has((#[trigger] scans@[k]).records@, t),
        decreases scans@.len() - i,
    {
        let ghost rest = scans@.skip(i as int);
        assert(rest[0] == scans@[i as int]);
        assert(rest.drop_first() == scans@.skip(i + 1));
        if scans[i].blocked {
            return Err(
                Failure {
                    message: join3(
                        "Task pruning blocked by invalid pending enqueue records for automation '",
                        scans[i].automation_id.as_str(),
                        "'",
                    ),
                },
            );
        }
        note_records(&mut list, &scans[i].records);
        i += 1;
    }
    let ghost journals = texts(list@);
    let mut j: usize = 0;
    while j < runs.len()
        invariant
            j <= runs@.len(),
            texts(list@).no_duplicates(),
            forall|t: Seq<char>| #[trigger]
                texts(list@).contains(t) <==> journals.contains(t) || exists|k: int|
                    0 <= k < j && text_opt((#[trigger] runs@[k]).task_id) == Some(t),
        decreases runs@.len() - j,
    {
        note(&mut list, &runs[j].task_id);
        j += 1;
    }
    assert(first_blocked(scans@.skip(scans@.len() as int)) is None);
    Ok(list)
}

/// What is wrong with the first of the names that cannot be an automation's.
pub open spec fn owners_fault(names: Seq<Seq<char>>) -> Option<Seq<char>>
    decreases names.len(),
{
    if names.len() == 0 {
        None
    } else {
        let fault = storage_id_fault("automation id"@, names[0]);
        if fault is Some {
            fault
        } else {
            owners_fault(names.drop_first())
        }
    }
}

/// The automations that the names of directories stand for, in order.
pub fn order_owners(names: Vec<String>) -> (r: Result<Vec<String>, Failure>)
    ensures
        match owners_fault(texts(names@)) {
            Some(words) => r matches Err(e) && e@ == words,
            None => r matches Ok(list) && is_sorted_from(texts(names@), texts(list@), id_order()),
        },
{
    let ghost all = texts(names@);
    let mut i: usize = 0;
    assert(all.skip(0) =~= all);
    while i < names.len()
        invariant
            i <= names@.len(),
            all == texts(names@),
            owners_fault(all) == owners_fault(all.skip(i as int)),
        decreases names@.len() - i,
    {
        assert(all.skip(i as int)[0] == names@[i as int]@);
        assert(all.skip(i as int).drop_first() =~= all.skip(i + 1));
        if let Err(e) = ensure_safe_storage_id("automation id", names[i].as_str()) {
            return Err(e);
        }
        i += 1;
    }
    assert(owners_fault(all.skip(all.len() as int)) is None);
    Ok(sort_ids(names))
}

/// While a journal cannot be trusted no task is given up.
pub proof fn distrust_protects_every_task(scans: Seq<JournalScan>, i: int)
    requires
        0 <= i < scans.len(),
        scans[i].blocked,
    ensures
        first_blocked(scans) is Some,
    decreases scans.len(),
{
    if !scans[0].blocked {
        assert(scans.drop_first()[i - 1] == scans[i]);
        distrust_protects_every_task(scans.drop_first(), i - 1);
    }
}

} // verus!
