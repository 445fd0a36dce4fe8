//! The automations that are stored.
//!
//! A file that holds no record, or one that cannot be admitted or is not valid, is left out:
//! it does not stand in the way of the others.
use vstd::prelude::*;
use vstd::string::*;

use crate::automation::{
    admit_automation, canonical_mode, changed_later, is_valid_record, sort_automations,
    validate_automation_record, AutomationRecord, CURRENT_AUTOMATION_SCHEMA_VERSION,
};
use crate::automation_laws::a_record_has_one_fault;
use crate::failure::fault_of;
use crate::order::is_sorted_from;
use crate::text::text_opt;

verus! {

/// A file of the directory: the record in it, with the name of the file without the
/// extension, unless it holds none.
#[derive(Debug)]
pub enum StoredAutomation {
    Unreadable,
    Read { file_stem: String, record: AutomationRecord },
}

/// A record that was admitted. Where `changed`, it has to be stored again.
#[derive(Debug)]
pub struct AdmittedAutomation {
    pub file_stem: String,
    pub record: AutomationRecord,
    pub changed: bool,
}

/// Whether a file is admitted: it holds a record, of a layout that is known, with a mode that
/// is known, if it has one.
pub open spec fn is_admissible(file: StoredAutomation) -> bool {
    &&& file is Read
    &&& file->record.schema_version <= CURRENT_AUTOMATION_SCHEMA_VERSION
    &&& text_opt(file->record.mode) matches Some(mode) ==> canonical_mode(mode) is Some
}

/// What is admitted of a record: its mode in the usual form, and all else as it is.
pub open spec fn is_admission(file: StoredAutomation, out: AdmittedAutomation) -> bool {
    &&& out.file_stem == file->file_stem
    &&& out.record == (AutomationRecord { mode: out.record.mode, ..file->record })
    &&& match text_opt(file->record.mode) {
        None => out.record.mode is None && !out.changed,
        Some(mode) => text_opt(out.record.mode) == canonical_mode(mode) && out.changed == (Some(mode)
            != canonical_mode(mode)),
    }
}

/// What is admitted of the files, in order.
pub open spec fn are_admitted(files: Seq<StoredAutomation>, out: Seq<AdmittedAutomation>) -> bool
    decreases files.len(),
{
    if files.len() == 0 {
        out.len() == 0
    } else if !is_admissible(files.last()) {
        are_admitted(files.drop_last(), out)
    } else {
        &&& out.len() > 0
        &&& is_admission(files.last(), out.last())
        &&& are_admitted(files.drop_last(), out.drop_last())
    }
}

/// Admits the files that can be admitted.
pub fn admit_stored(files: Vec<StoredAutomation>) -> (r: Vec<AdmittedAutomation>)
    ensures
        are_admitted(files@, r@),
{
    let mut rest = files;
    let mut out: Vec<AdmittedAutomation> = Vec::new();
    assert(files@.take(0) =~= Seq::empty());
    while rest.len() > 0
        invariant
            rest@.len() <= files@.len(),
            rest@ == files@.skip(files@.len() - rest@.len()),
            are_admitted(files@.take(files@.len() - rest@.len()), out@),
        decreases rest@.len(),
    {
        let ghost done = files@.len() - rest@.len();
        let ghost before = out@;
        let file = rest.remove(0);
        proof {
            assert(file == files@[done]);
            assert(rest@ =~= files@.skip(done + 1));
            assert(files@.take(done + 1).drop_last() =~= files@.take(done));
        }
        if let StoredAutomation::Read { file_stem, record } = file {
            if let Ok((record, changed)) = admit_automation(record) {
                out.push(AdmittedAutomation { file_stem, record, changed });
                assert(out@.drop_last() =~= before);
            }
        }
    }
    assert(files@.take(files@.len() as int) =~= files@);
    out
}

/// The records that are valid where they are stored, in order.
pub open spec fn valid_records(files: Seq<AdmittedAutomation>) -> Seq<AutomationRecord>
    decreases files.len(),
{
    if files.len() == 0 {
        Seq::empty()
    } else {
        let before = valid_records(files.drop_last());
        if is_valid_record(files.last().record, files.last().file_stem@) {
            before.push(files.last().record)
        } else {
            before
        }
    }
}

/// Lists the records that are valid, what changed last before the others.
pub fn list_automations(files: Vec<AdmittedAutomation>) -> (r: Vec<AutomationRecord>)
    ensures
        is_sorted_from(valid_records(files@), r@, changed_later()),
{
    let mut rest = files;
    let mut kept: Vec<AutomationRecord> = Vec::new();
    assert(files@.take(0) =~= Seq::empty());
    while rest.len() > 0
        invariant
            rest@.len() <= files@.len(),
            rest@ == files@.skip(files@.len() - rest@.len()),
            kept@ == valid_records(files@.take(files@.len() - rest@.len())),
        decreases rest@.len(),
    {
        let ghost done = files@.len() - rest@.len();
        let file = rest.remove(0);
        let verdict = validate_automation_record(&file.record, file.file_stem.as_str());
        proof {
            assert(file == files@[done]);
            assert(rest@ =~= files@.skip(done + 1));
            assert(files@.take(done + 1).drop_last() =~= files@.take(done));
            if is_valid_record(file.record, file.file_stem@) {
                a_record_has_one_fault(file.record, file.file_stem@, None, fault_of(verdict));
            }
        }
        if verdict.is_ok() {
            kept.push(file.record);
        }
    }
    assert(files@.take(files@.len() as int) =~= files@);
    sort_automations(kept)
}

// Laws -----------------------------------------------------------------------
/// A file that cannot be admitted does not stand in the way of the others: what is admitted
/// is what would be admitted without it.
pub proof fn refused_files_block_nothing(
    files: Seq<StoredAutomation>,
    i: int,
    out: Seq<AdmittedAutomation>,
)
    requires
        0 <= i < files.len(),
        !is_admissible(files[i]),
    ensures
        are_admitted(files, out) <==> are_admitted(files.remove(i), out),
    decreases files.len(),
{
    let rest = files.remove(i);
    if i == files.len() - 1 {
        assert(rest =~= files.drop_last());
    } else {
        assert(files.drop_last().remove(i) =~= rest.drop_last());
        assert(rest.last() == files.last());
        if !is_admissible(files.last()) {
            refused_files_block_nothing(files.drop_last(), i, out);
        } else if out.len() > 0 {
            refused_files_block_nothing(files.drop_last(), i, out.drop_last());
        }
    }
}

/// Nor does a record that is not valid.
pub proof fn invalid_records_block_nothing(files: Seq<AdmittedAutomation>, i: int)
    requires
        0 <= i < files.len(),
        !is_valid_record(files[i].record, files[i].file_stem@),
    ensures
        valid_records(files) == valid_records(files.remove(i)),
    decreases files.len(),
{
    let rest = files.remove(i);
    if i == files.len() - 1 {
        assert(rest =~= files.drop_last());
    } else {
        assert(files.drop_last().remove(i) =~= rest.drop_last());
        assert(rest.last() == files.last());
        invalid_records_block_nothing(files.drop_last(), i);
    }
}

} // verus!
