//! Runs that are about to be queued.
//!
//! Before a run's task is queued, a journal record says so. Its key is a function
//! of the run, so that a second attempt queues no second task.
use vstd::prelude::*;
use vstd::string::*;

use crate::automation::{
    newer_schema, newer_schema_failure, AutomationRunRecord, AutomationRunStatus,
    CURRENT_RUN_SCHEMA_VERSION,
};
use crate::failure::{failure, fault_of, Failure};
use crate::ids::{canonical_uuid, is_hyphen_place, is_hex, uuid_of, uuid_text_is_stable};
use crate::order::{is_sorted_from, sort_stable};
use crate::storage_id::{ensure_safe_storage_id, is_safe_id, storage_id_fault};
use crate::text::{
    copy_text, dec, dec_int, decimal_signed, digits_value, is_digit, join2, join3,
    lemma_first_index_is, same_text, split_on, starts_with_seq, strip_prefix,
};
use crate::time::{micros, Timestamp};

verus! {

/// The newest layout of a journal record that is understood.
pub const CURRENT_PENDING_ENQUEUE_SCHEMA_VERSION: u32 = 1;

#[derive(Debug, Clone, Copy, PartialEq, Eq, Structural)]
pub enum PendingEnqueueKind {
    /// The run of a slot of the schedule.
    Scheduled,
    /// A run that was asked for by hand.
    Manual,
}

/// A journal record: the run and the key that its task is queued under.
#[derive(Debug, Clone)]
pub struct PendingEnqueueRecord {
    pub schema_version: u32,
    pub kind: PendingEnqueueKind,
    pub slot_key: String,
    pub run: AutomationRunRecord,
}

/// The identifier of a slot's run.
pub open spec fn slot_id(t: Timestamp) -> Seq<char> {
    "slot_"@ + dec_int(micros(t))
}

/// The key that a slot's task is queued under.
pub open spec fn slot_key(automation_id: Seq<char>, t: Timestamp) -> Seq<char> {
    "automation:"@ + automation_id + ":slot:"@ + dec_int(micros(t))
}

/// The identifier of a run that was asked for by hand.
pub open spec fn manual_id(invocation: Seq<char>) -> Seq<char> {
    "manual_"@ + invocation
}

/// The key that the task of such a run is queued under.
pub open spec fn manual_key(automation_id: Seq<char>, invocation: Seq<char>) -> Seq<char> {
    "automation:"@ + automation_id + ":manual:"@ + invocation
}

/// A run that nothing has happened to yet.
pub open spec fn is_fresh_run(
    run: AutomationRunRecord,
    id: Seq<char>,
    automation_id: Seq<char>,
    scheduled_for: Timestamp,
    created_at: Timestamp,
) -> bool {
    &&& run.schema_version == CURRENT_RUN_SCHEMA_VERSION
    &&& run.id@ == id
    &&& run.automation_id@ == automation_id
    &&& run.scheduled_for == scheduled_for
    &&& run.status is Queued
    &&& run.created_at == created_at
    &&& run.started_at is None && run.ended_at is None
    &&& run.task_id is None && run.thread_id is None && run.turn_id is None && run.error is None
}

fn fresh_run(
    id: String,
    automation_id: &str,
    scheduled_for: Timestamp,
    created_at: Timestamp,
) -> (r: AutomationRunRecord)
    ensures
        is_fresh_run(r, id@, automation_id@, scheduled_for, created_at),
{
    AutomationRunRecord {
        schema_version: CURRENT_RUN_SCHEMA_VERSION,
        id,
        automation_id: copy_text(automation_id),
        scheduled_for,
        status: AutomationRunStatus::Queued,
        created_at,
        started_at: None,
        ended_at: None,
        task_id: None,
        thread_id: None,
        turn_id: None,
        error: None,
    }
}

/// The identifier of the run of the slot at `due_at`.
pub fn slot_run_id(due_at: Timestamp) -> (r: String)
    requires
        due_at.wf(),
    ensures
        r@ == slot_id(due_at),
{
    join2("slot_", decimal_signed(due_at.timestamp_micros()).as_str())
}

fn key_of_slot(automation_id: &str, due_at: Timestamp) -> (r: String)
    requires
        due_at.wf(),
    ensures
        r@ == slot_key(automation_id@, due_at),
{
    let mut key = join3("automation:", automation_id, ":slot:");
    key.append(decimal_signed(due_at.timestamp_micros()).as_str());
    key
}

fn key_of_invocation(automation_id: &str, invocation: &str) -> (r: String)
    ensures
        r@ == manual_key(automation_id@, invocation@),
{
    let mut key = join3("automation:", automation_id, ":manual:");
    key.append(invocation);
    key
}

pub open spec fn invalid_invocation(invocation_id: Seq<char>) -> Seq<char> {
    "Invalid manual run invocation id '"@ + invocation_id + "'"@
}

/// The journal record of the slot at `scheduled_for`.
pub open spec fn is_slot_record(
    record: PendingEnqueueRecord,
    automation_id: Seq<char>,
    scheduled_for: Timestamp,
    created_at: Timestamp,
) -> bool {
    &&& record.schema_version == CURRENT_PENDING_ENQUEUE_SCHEMA_VERSION
    &&& record.kind is Scheduled
    &&& record.slot_key@ == slot_key(automation_id, scheduled_for)
    &&& is_fresh_run(
        record.run,
        slot_id(scheduled_for),
        automation_id,
        scheduled_for,
        created_at,
    )
}

/// The journal record of the run that was asked for under `invocation`.
pub open spec fn is_manual_record(
    record: PendingEnqueueRecord,
    automation_id: Seq<char>,
    invocation: Seq<char>,
    created_at: Timestamp,
) -> bool {
    &&& record.schema_version == CURRENT_PENDING_ENQUEUE_SCHEMA_VERSION
    &&& record.kind is Manual
    &&& record.slot_key@ == manual_key(automation_id, invocation)
    &&& is_fresh_run(record.run, manual_id(invocation), automation_id, created_at, created_at)
}

impl PendingEnqueueRecord {
    /// The journal record of a slot of the schedule.
    pub fn for_slot(automation_id: &str, scheduled_for: Timestamp, created_at: Timestamp) -> (r: Self)
        requires
            scheduled_for.wf(),
        ensures
            is_slot_record(r, automation_id@, scheduled_for, created_at),
    {
        PendingEnqueueRecord {
            schema_version: CURRENT_PENDING_ENQUEUE_SCHEMA_VERSION,
            kind: PendingEnqueueKind::Scheduled,
            slot_key: key_of_slot(automation_id, scheduled_for),
            run: fresh_run(slot_run_id(scheduled_for), automation_id, scheduled_for, created_at),
        }
    }

    /// The journal record of a run that is asked for by hand, under an identifier of
    /// the caller's.
    pub fn for_manual(automation_id: &str, invocation_id: &str, created_at: Timestamp) -> (r: Result<
        Self,
        Failure,
    >)
        ensures
            match uuid_of(invocation_id@) {
                Some(invocation) => r matches Ok(record) && is_manual_record(
                    record,
                    automation_id@,
                    invocation,
                    created_at,
                ),
                None => r matches Err(e) && e@ == invalid_invocation(invocation_id@),
            },
    {
        match canonical_uuid(invocation_id) {
            None => Err(
                Failure {
                    message: join3("Invalid manual run invocation id '", invocation_id, "'"),
                },
            ),
            Some(invocation) => Ok(
                PendingEnqueueRecord {
                    schema_version: CURRENT_PENDING_ENQUEUE_SCHEMA_VERSION,
                    kind: PendingEnqueueKind::Manual,
                    slot_key: key_of_invocation(automation_id, invocation.as_str()),
                    run: fresh_run(
                        join2("manual_", invocation.as_str()),
                        automation_id,
                        created_at,
                        created_at,
                    ),
                },
            ),
        }
    }
}

/// What is wrong with a run that is stored under the two identifiers.
pub open spec fn run_fault(
    run: AutomationRunRecord,
    automation_id: Seq<char>,
    run_id: Seq<char>,
) -> Option<Seq<char>> {
    let owner = storage_id_fault("automation id"@, automation_id);
    let filename = storage_id_fault("run filename"@, run_id);
    let own_owner = storage_id_fault("run automation id"@, run.automation_id@);
    let own_id = storage_id_fault("run id"@, run.id@);
    if run.schema_version > CURRENT_RUN_SCHEMA_VERSION {
        Some(newer_schema("Automation run"@, run.schema_version, CURRENT_RUN_SCHEMA_VERSION))
    } else if owner is Some {
        owner
    } else if filename is Some {
        filename
    } else if own_owner is Some {
        own_owner
    } else if own_id is Some {
        own_id
    } else if run.automation_id@ != automation_id || run.id@ != run_id {
        Some("Automation run has mismatched identity"@)
    } else {
        None
    }
}

/// Accepts a run that may be stored under the two identifiers.
pub fn validate_run_record(
    run: &AutomationRunRecord,
    expected_automation_id: &str,
    expected_run_id: &str,
) -> (r: Result<(), Failure>)
    ensures
        fault_of(r) == run_fault(*run, expected_automation_id@, expected_run_id@),
{
    if run.schema_version > CURRENT_RUN_SCHEMA_VERSION {
        return Err(
            newer_schema_failure(
                "Automation run",
                run.schema_version,
                CURRENT_RUN_SCHEMA_VERSION,
            ),
        );
    }
    if let Err(e) = ensure_safe_storage_id("automation id", expected_automation_id) {
        return Err(e);
    }
    if let Err(e) = ensure_safe_storage_id("run filename", expected_run_id) {
        return Err(e);
    }
    if let Err(e) = ensure_safe_storage_id("run automation id", run.automation_id.as_str()) {
        return Err(e);
    }
    if let Err(e) = ensure_safe_storage_id("run id", run.id.as_str()) {
        return Err(e);
    }
    if !same_text(run.automation_id.as_str(), expected_automation_id) || !same_text(
        run.id.as_str(),
        expected_run_id,
    ) {
        return Err(failure("Automation run has mismatched identity"));
    }
    Ok(())
}

pub open spec fn kind_name(kind: PendingEnqueueKind) -> Seq<char> {
    match kind {
        PendingEnqueueKind::Scheduled => "Scheduled"@,
        PendingEnqueueKind::Manual => "Manual"@,
    }
}

/// What is wrong with a journal record's names, given what they should be.
pub open spec fn naming_fault(
    record: PendingEnqueueRecord,
    id: Seq<char>,
    key: Seq<char>,
) -> Option<Seq<char>> {
    if record.run.id@ != id {
        Some(
            "Pending enqueue run id '"@ + record.run.id@ + "' is inconsistent with its "@
                + kind_name(record.kind) + " kind"@,
        )
    } else if record.slot_key@ != key {
        Some(
            "Pending enqueue slot key '"@ + record.slot_key@ + "' does not match expected '"@ + key
                + "'"@,
        )
    } else {
        None
    }
}

/// What is wrong with a journal record's names.
pub open spec fn naming_of_kind_fault(
    record: PendingEnqueueRecord,
    automation_id: Seq<char>,
) -> Option<Seq<char>> {
    match record.kind {
        PendingEnqueueKind::Scheduled => naming_fault(
            record,
            slot_id(record.run.scheduled_for),
            slot_key(automation_id, record.run.scheduled_for),
        ),
        PendingEnqueueKind::Manual => if !starts_with_seq(record.run.id@, "manual_"@) {
            Some("Manual pending enqueue run id must start with 'manual_'"@)
        } else {
            match uuid_of(record.run.id@.skip("manual_"@.len() as int)) {
                None => Some("Manual pending enqueue run id must contain a UUID"@),
                Some(invocation) => naming_fault(
                    record,
                    manual_id(invocation),
                    manual_key(automation_id, invocation),
                ),
            }
        },
    }
}

/// What is wrong with a journal record that is stored under the two identifiers.
pub open spec fn pending_fault(
    record: PendingEnqueueRecord,
    automation_id: Seq<char>,
    run_id: Seq<char>,
) -> Option<Seq<char>> {
    let owner = storage_id_fault("automation id"@, automation_id);
    let filename = storage_id_fault("pending enqueue filename"@, run_id);
    let own_owner = storage_id_fault("run automation id"@, record.run.automation_id@);
    let own_id = storage_id_fault("run id"@, record.run.id@);
    if record.schema_version > CURRENT_PENDING_ENQUEUE_SCHEMA_VERSION {
        Some(
            newer_schema(
                "Pending enqueue"@,
                record.schema_version,
                CURRENT_PENDING_ENQUEUE_SCHEMA_VERSION,
            ),
        )
    } else if record.run.schema_version > CURRENT_RUN_SCHEMA_VERSION {
        Some(
            newer_schema("Automation run"@, record.run.schema_version, CURRENT_RUN_SCHEMA_VERSION),
        )
    } else if owner is Some {
        owner
    } else if filename is Some {
        filename
    } else if own_owner is Some {
        own_owner
    } else if own_id is Some {
        own_id
    } else if record.run.automation_id@ != automation_id {
        Some(
            "Pending enqueue belongs to automation "@ + record.run.automation_id@ + ", expected "@
                + automation_id,
        )
    } else if record.run.id@ != run_id {
        Some(
            "Pending enqueue run id '"@ + record.run.id@ + "' does not match file stem '"@ + run_id
                + "'"@,
        )
    } else {
        naming_of_kind_fault(record, automation_id)
    }
}

fn check_naming(record: &PendingEnqueueRecord, id: &str, key: &str) -> (r: Result<(), Failure>)
    ensures
        fault_of(r) == naming_fault(*record, id@, key@),
{
    if !same_text(record.run.id.as_str(), id) {
        let mut message = join3(
            "Pending enqueue run id '",
            record.run.id.as_str(),
            "' is inconsistent with its ",
        );
        match record.kind {
            PendingEnqueueKind::Scheduled => {
                message.append("Scheduled");
            },
            PendingEnqueueKind::Manual => {
                message.append("Manual");
            },
        }
        message.append(" kind");
        return Err(Failure { message });
    }
    if !same_text(record.slot_key.as_str(), key) {
        let mut message = join3(
            "Pending enqueue slot key '",
            record.slot_key.as_str(),
            "' does not match expected '",
        );
        message.append(key);
        message.append("'");
        return Err(Failure { message });
    }
    Ok(())
}

/// Accepts a journal record that may be stored under the two identifiers.
pub fn validate_pending_enqueue_record(
    record: &PendingEnqueueRecord,
    expected_automation_id: &str,
    expected_run_id: &str,
) -> (r: Result<(), Failure>)
    requires
        record.run.scheduled_for.wf(),
    ensures
        fault_of(r) == pending_fault(*record, expected_automation_id@, expected_run_id@),
{
    if record.schema_version > CURRENT_PENDING_ENQUEUE_SCHEMA_VERSION {
        return Err(
            newer_schema_failure(
                "Pending enqueue",
                record.schema_version,
                CURRENT_PENDING_ENQUEUE_SCHEMA_VERSION,
            ),
        );
    }
    if record.run.schema_version > CURRENT_RUN_SCHEMA_VERSION {
        return Err(
            newer_schema_failure(
                "Automation run",
                record.run.schema_version,
                CURRENT_RUN_SCHEMA_VERSION,
            ),
        );
    }
    if let Err(e) = ensure_safe_storage_id("automation id", expected_automation_id) {
        return Err(e);
    }
    if let Err(e) = ensure_safe_storage_id("pending enqueue filename", expected_run_id) {
        return Err(e);
    }
    if let Err(e) = ensure_safe_storage_id("run automation id", record.run.automation_id.as_str()) {
        return Err(e);
    }
    if let Err(e) = ensure_safe_storage_id("run id", record.run.id.as_str()) {
        return Err(e);
    }
    if !same_text(record.run.automation_id.as_str(), expected_automation_id) {
        let mut message = join3(
            "Pending enqueue belongs to automation ",
            record.run.automation_id.as_str(),
            ", expected ",
        );
        message.append(expected_automation_id);
        return Err(Failure { message });
    }
    if !same_text(record.run.id.as_str(), expected_run_id) {
        let mut message = join3(
            "Pending enqueue run id '",
            record.run.id.as_str(),
            "' does not match file stem '",
        );
        message.append(expected_run_id);
        message.append("'");
        return Err(Failure { message });
    }
    match record.kind {
        PendingEnqueueKind::Scheduled => {
            let id = slot_run_id(record.run.scheduled_for);
            let key = key_of_slot(expected_automation_id, record.run.scheduled_for);
            check_naming(record, id.as_str(), key.as_str())
        },
        PendingEnqueueKind::Manual => match strip_prefix(record.run.id.as_str(), "manual_") {
            None => Err(failure("Manual pending enqueue run id must start with 'manual_'")),
            Some(rest) => match canonical_uuid(rest.as_str()) {
                None => Err(failure("Manual pending enqueue run id must contain a UUID")),
                Some(invocation) => {
                    let id = join2("manual_", invocation.as_str());
                    let key = key_of_invocation(expected_automation_id, invocation.as_str());
                    check_naming(record, id.as_str(), key.as_str())
                },
            },
        },
    }
}

/// The order of a scan: what was written first comes first.
pub open spec fn created_earlier() -> spec_fn(PendingEnqueueRecord, PendingEnqueueRecord) -> bool {
    |a: PendingEnqueueRecord, b: PendingEnqueueRecord| a.run.created_at.before(b.run.created_at)
}

/// Sorts journal records so that what was written first comes first.
pub fn sort_pending(list: Vec<PendingEnqueueRecord>) -> (r: Vec<PendingEnqueueRecord>)
    ensures
        is_sorted_from(list@, r@, created_earlier()),
{
    let less = |a: &PendingEnqueueRecord, b: &PendingEnqueueRecord| -> (x: bool)
        ensures
            x == a.run.created_at.before(b.run.created_at),
        { a.run.created_at.is_before(&b.run.created_at) };
    sort_stable(list, less, Ghost(created_earlier()))
}

/// What was found of one file of a journal.
#[derive(Debug)]
pub enum JournalFile {
    /// It could not be read, or holds no record.
    Unreadable,
    /// A record, with the name of its file without the extension.
    Read { file_stem: String, record: PendingEnqueueRecord },
}

/// The file holds a record that may stand there.
pub open spec fn is_sound(automation_id: Seq<char>, file: JournalFile) -> bool {
    file matches JournalFile::Read { file_stem, record } && pending_fault(
        record,
        automation_id,
        file_stem@,
    ) is None
}

/// The records of the files that hold one that may stand there, in order.
pub open spec fn sound_records(automation_id: Seq<char>, files: Seq<JournalFile>) -> Seq<
    PendingEnqueueRecord,
>
    decreases files.len(),
{
    if files.len() == 0 {
        Seq::empty()
    } else {
        let before = sound_records(automation_id, files.drop_last());
        if is_sound(automation_id, files.last()) {
            before.push(files.last()->record)
        } else {
            before
        }
    }
}

/// Reads a journal: its records, what was written first before the others, and whether
/// there is a file that holds no record that may stand there.
pub fn read_journal(automation_id: &str, files: Vec<JournalFile>) -> (r: (
    Vec<PendingEnqueueRecord>,
    bool,
))
    requires
        forall|i: int|
            0 <= i < files@.len() ==> (#[trigger] files@[i] matches JournalFile::Read { record, .. }
                ==> record.run.scheduled_for.wf()),
    ensures
        is_sorted_from(sound_records(automation_id@, files@), r.0@, created_earlier()),
        r.1 == exists|i: int| 0 <= i < files@.len() && !is_sound(automation_id@, #[trigger] files@[i]),
{
    let mut rest = files;
    let mut records: Vec<PendingEnqueueRecord> = Vec::new();
    let mut blocked = false;
    assert(files@.take(0) =~= Seq::empty());
    while rest.len() > 0
        invariant
            rest@.len() <= files@.len(),
            rest@ == files@.skip(files@.len() - rest@.len()),
            forall|i: int|
                0 <= i < files@.len() ==> (#[trigger] files@[i] matches JournalFile::Read {
                    record,
                    ..
                } ==> record.run.scheduled_for.wf()),
            records@ == sound_records(automation_id@, files@.take(files@.len() - rest@.len())),
            blocked == exists|i: int|
                0 <= i < files@.len() - rest@.len() && !is_sound(
                    automation_id@,
                    #[trigger] files@[i],
                ),
        decreases rest@.len(),
    {
        let ghost done = files@.len() - rest@.len();
        let file = rest.remove(0);
        proof {
            assert(file == files@[done]);
            assert(rest@ =~= files@.skip(done + 1));
            assert(files@.take(done + 1).drop_last() =~= files@.take(done));
        }
        match file {
            JournalFile::Unreadable => {
                blocked = true;
                assert(!is_sound(automation_id@, files@[done]));
            },
            JournalFile::Read { file_stem, record } => {
                match validate_pending_enqueue_record(&record, automation_id, file_stem.as_str()) {
                    Ok(_) => {
                        records.push(record);
                    },
                    Err(_) => {
                        blocked = true;
                        assert(!is_sound(automation_id@, files@[done]));
                    },
                }
            },
        }
    }
    assert(files@.take(files@.len() as int) =~= files@);
    (sort_pending(records), blocked)
}

// Laws -----------------------------------------------------------------------
pub(crate) proof fn lemma_dec_digits(n: nat)
    ensures
        dec(n).len() > 0,
        forall|i: int| 0 <= i < dec(n).len() ==> is_digit(#[trigger] dec(n)[i]),
        digits_value(dec(n)) == n,
    decreases n,
{
    if n < 10 {
        assert(dec(n).drop_last() =~= Seq::empty());
        assert(digits_value(Seq::<char>::empty()) == 0);
    } else {
        lemma_dec_digits(n / 10);
        assert(dec(n).drop_last() =~= dec(n / 10));
    }
}

proof fn lemma_dec_int_injective(a: int, b: int)
    requires
        dec_int(a) == dec_int(b),
    ensures
        a == b,
{
    let m = if a < 0 {
        (-a) as nat
    } else {
        a as nat
    };
    let n = if b < 0 {
        (-b) as nat
    } else {
        b as nat
    };
    lemma_dec_digits(m);
    lemma_dec_digits(n);
    if a < 0 {
        assert(dec_int(a)[0] == '-');
        assert(dec_int(a).drop_first() =~= dec(m));
    }
    if b < 0 {
        assert(dec_int(b)[0] == '-');
        assert(dec_int(b).drop_first() =~= dec(n));
    }
    assert(is_digit(dec(m)[0]) && is_digit(dec(n)[0]));
}

/// A text without slashes that starts with a letter can name a file.
proof fn lemma_plain_text_is_safe(s: Seq<char>)
    requires
        s.len() > 0,
        s[0] != '.',
        forall|i: int| 0 <= i < s.len() ==> #[trigger] s[i] != '/',
    ensures
        is_safe_id(s),
{
    lemma_first_index_is(s, '/', s.len() as int);
    assert(split_on(s, '/') == seq![s]);
    reveal_strlit(".");
    reveal_strlit("..");
    assert("."@[0] == '.' && ".."@[0] == '.');
}

/// The runs of two slots have the same identifier only where the slots fall in the
/// same microsecond.
pub proof fn slot_ids_tell_slots_apart(s: Timestamp, t: Timestamp)
    ensures
        slot_id(s) == slot_id(t) <==> micros(s) == micros(t),
{
    if slot_id(s) == slot_id(t) {
        let n = "slot_"@.len() as int;
        assert(slot_id(s).skip(n) =~= dec_int(micros(s)));
        assert(slot_id(t).skip(n) =~= dec_int(micros(t)));
        lemma_dec_int_injective(micros(s), micros(t));
    }
}

/// A slot's journal record may be stored under its own identifiers.
pub proof fn slot_records_are_valid(
    record: PendingEnqueueRecord,
    automation_id: Seq<char>,
    scheduled_for: Timestamp,
    created_at: Timestamp,
)
    requires
        is_safe_id(automation_id),
        automation_id.len() > 0,
        is_slot_record(record, automation_id, scheduled_for, created_at),
    ensures
        pending_fault(record, automation_id, slot_id(scheduled_for)) is None,
        run_fault(record.run, automation_id, slot_id(scheduled_for)) is None,
{
    let id = slot_id(scheduled_for);
    let n = micros(scheduled_for);
    reveal_strlit("slot_");
    lemma_dec_digits(if n < 0 { (-n) as nat } else { n as nat });
    assert(id[0] == 's');
    assert forall|i: int| 0 <= i < id.len() implies #[trigger] id[i] != '/' by {
        if i >= 5 {
            assert(id[i] == dec_int(n)[i - 5]);
        }
    }
    lemma_plain_text_is_safe(id);
}

/// The journal record of a run by hand may be stored under its own identifiers.
pub proof fn manual_records_are_valid(
    record: PendingEnqueueRecord,
    automation_id: Seq<char>,
    invocation_id: Seq<char>,
    invocation: Seq<char>,
    created_at: Timestamp,
)
    requires
        is_safe_id(automation_id),
        automation_id.len() > 0,
        uuid_of(invocation_id) == Some(invocation),
        is_manual_record(record, automation_id, invocation, created_at),
    ensures
        pending_fault(record, automation_id, manual_id(invocation)) is None,
        run_fault(record.run, automation_id, manual_id(invocation)) is None,
{
    let id = manual_id(invocation);
    reveal_strlit("manual_");
    uuid_text_is_stable(invocation_id);
    assert(id[0] == 'm');
    assert forall|i: int| 0 <= i < id.len() implies #[trigger] id[i] != '/' by {
        if i >= 7 {
            assert(id[i] == invocation[i - 7]);
            assert(if is_hyphen_place(i - 7) {
                invocation[i - 7] == '-'
            } else {
                is_hex(invocation[i - 7])
            });
        }
    }
    lemma_plain_text_is_safe(id);
    assert(id.take(7) =~= "manual_"@);
    assert(id.skip(7) =~= invocation);
}

/// However an invocation is written, it leads to one run.
pub proof fn one_invocation_is_one_run(a: Seq<char>, b: Seq<char>)
    requires
        uuid_of(a) is Some,
        uuid_of(a) == uuid_of(b),
    ensures
        manual_id(uuid_of(a)->Some_0) == manual_id(uuid_of(b)->Some_0),
        uuid_of(uuid_of(a)->Some_0) == uuid_of(a),
{
    uuid_text_is_stable(a);
}

} // verus!
