//! What creating, changing, reading and listing automations comes to, field by field.
use vstd::prelude::*;
use vstd::string::*;

use crate::automation::{
    as_cursor, changed_later, creation, cursor_after_rule, cursor_after_status, cursor_under_rule,
    is_changed_record, is_valid_record, mode_fault, planned_slot, record_or_refusal,
    requested_mode, requested_status, rule_after, slot_in_words, update, AutomationRecord,
    AutomationStatus, CreateAutomationRequest, UpdateAutomationRequest,
};
use crate::automation_listing::{
    are_admitted, is_admissible, is_admission, valid_records, AdmittedAutomation, StoredAutomation,
};
use crate::failure::Failure;
use crate::order::{arranges, is_sorted_from, sorting_keeps_the_items};
use crate::queueing_laws::same_words;
use crate::rrule::{rrule_meaning, AutomationSchedule, ScheduleError};
use crate::schedule::{next_slot, Zone};
use crate::storage_id::is_safe_id;
use crate::text::{lower, text_opt, trimmed, upper};
use crate::time::Timestamp;

verus! {

/// A stored text is the one that was given, without white space round it, and missing where
/// nothing else was given.
pub open spec fn is_cleaned(stored: Option<String>, given: Option<String>) -> bool {
    match given {
        Some(text) => if trimmed(text@).len() == 0 {
            stored is None
        } else {
            stored matches Some(s) && s@ == trimmed(text@)
        },
        None => stored is None,
    }
}

/// A stored mode is the one that was given, without white space round it and in small letters,
/// and one of the three.
pub open spec fn is_stored_mode(stored: Option<String>, given: Option<String>) -> bool {
    match given {
        Some(text) => if trimmed(text@).len() == 0 {
            stored is None
        } else {
            stored matches Some(s) && s@ == lower(trimmed(text@)) && (s@ == "agent"@ || s@
                == "plan"@ || s@ == "yolo"@)
        },
        None => stored is None,
    }
}

proof fn lemma_slot(zone: Zone, schedule: AutomationSchedule, now: Timestamp, t: Timestamp)
    requires
        slot_in_words(zone, schedule, now, Ok(t)),
    ensures
        next_slot(zone, schedule, now, Ok(t)),
{
    let slot = choose|slot: Result<Timestamp, ScheduleError>| #[trigger]
        next_slot(zone, schedule, now, slot) && match slot {
            Err(e) => false,
            Ok(x) => x == t,
        };
    assert(slot == Ok::<Timestamp, ScheduleError>(t));
}

proof fn lemma_planned(zone: Zone, rule: Seq<char>, now: Timestamp, t: Timestamp)
    requires
        planned_slot(zone, rule, now, Ok(t)),
    ensures
        exists|schedule: AutomationSchedule| #[trigger]
            rrule_meaning(rule, Ok(schedule)) && next_slot(zone, schedule, now, Ok(t)),
{
    let parsed = choose|parsed: Result<AutomationSchedule, ScheduleError>| #[trigger]
        rrule_meaning(rule, parsed) && match parsed {
            Err(e) => false,
            Ok(schedule) => slot_in_words(zone, schedule, now, Ok(t)),
        };
    lemma_slot(zone, parsed->Ok_0, now, t);
    assert(rrule_meaning(rule, Ok(parsed->Ok_0)));
}

/// A new automation holds what was asked for: name and prompt without white space round them, the
/// rule in capitals, directories and switches as given. It is active unless asked otherwise, and
/// then runs first at the slot of its rule that follows its creation.
pub proof fn new_automations_hold_what_was_asked_for(
    zone: Zone,
    req: CreateAutomationRequest,
    now: Timestamp,
    id: Seq<char>,
    record: AutomationRecord,
)
    requires
        creation(zone, req, now, id, Ok(record)),
    ensures
        record.schema_version == 1,
        record.id@ == id,
        record.name@ == trimmed(req.name@) && record.name@.len() > 0,
        record.prompt@ == trimmed(req.prompt@) && record.prompt@.len() > 0,
        record.rrule@ == upper(trimmed(req.rrule@)),
        record.cwds == req.cwds,
        is_cleaned(record.model, req.model),
        is_stored_mode(record.mode, req.mode),
        record.allow_shell == req.allow_shell,
        record.trust_mode == req.trust_mode,
        record.auto_approve == req.auto_approve,
        req.status matches Some(status) ==> record.status == status,
        req.status is None ==> record.status is Active,
        record.created_at == now && record.updated_at == now,
        record.last_run_at is None,
        record.status is Paused ==> record.next_run_at is None,
        record.status is Active ==> (record.next_run_at matches Some(t) && exists|
            schedule: AutomationSchedule,
        | #[trigger]
            rrule_meaning(req.rrule@, Ok(schedule)) && next_slot(zone, schedule, now, Ok(t))),
{
    let parsed = choose|parsed: Result<AutomationSchedule, ScheduleError>| #[trigger]
        rrule_meaning(req.rrule@, parsed) && match parsed {
            Err(e) => false,
            Ok(schedule) => if requested_status(req) is Paused {
                record_or_refusal(req, now, id, None, Ok(record))
            } else {
                exists|slot: Result<Timestamp, Seq<char>>| #[trigger]
                    slot_in_words(zone, schedule, now, slot) && match slot {
                        Err(words) => false,
                        Ok(t) => record_or_refusal(req, now, id, Some(t), Ok(record)),
                    }
            },
        };
    let schedule = parsed->Ok_0;
    if requested_status(req) is Active {
        let slot = choose|slot: Result<Timestamp, Seq<char>>| #[trigger]
            slot_in_words(zone, schedule, now, slot) && match slot {
                Err(words) => false,
                Ok(t) => record_or_refusal(req, now, id, Some(t), Ok(record)),
            };
        lemma_slot(zone, schedule, now, slot->Ok_0);
        assert(rrule_meaning(req.rrule@, Ok(schedule)));
    }
}

/// Whether a mode that is asked for is none of the three.
pub open spec fn is_unknown_mode(given: Option<String>) -> bool {
    given matches Some(text) && trimmed(text@).len() > 0 && lower(trimmed(text@)) != "agent"@
        && lower(trimmed(text@)) != "plan"@ && lower(trimmed(text@)) != "yolo"@
}

/// A request for an automation is refused only for a blank name or prompt, a rule that is refused,
/// a rule without a slot, or a mode that does not exist.
pub proof fn creations_are_refused_for_cause(
    zone: Zone,
    req: CreateAutomationRequest,
    now: Timestamp,
    id: Seq<char>,
    e: Failure,
)
    requires
        creation(zone, req, now, id, Err(e)),
    ensures
        trimmed(req.name@).len() == 0 ==> e@ == "Automation name is required"@,
        trimmed(req.name@).len() > 0 && trimmed(req.prompt@).len() == 0 ==> e@
            == "Automation prompt is required"@,
        trimmed(req.name@).len() > 0 && trimmed(req.prompt@).len() > 0 ==> {
            ||| exists|why: ScheduleError| #[trigger]
                rrule_meaning(req.rrule@, Err(why)) && e@ == why.text()
            ||| req.status != Some(AutomationStatus::Paused) && exists|
                schedule: AutomationSchedule,
                why: ScheduleError,
            |
                rrule_meaning(req.rrule@, Ok(schedule)) && #[trigger] next_slot(
                    zone,
                    schedule,
                    now,
                    Err(why),
                ) && e@ == why.text()
            ||| is_unknown_mode(req.mode)
        },
{
    if trimmed(req.name@).len() > 0 && trimmed(req.prompt@).len() > 0 {
        let parsed = choose|parsed: Result<AutomationSchedule, ScheduleError>| #[trigger]
            rrule_meaning(req.rrule@, parsed) && match parsed {
                Err(why) => e@ == why.text(),
                Ok(schedule) => if requested_status(req) is Paused {
                    record_or_refusal(req, now, id, None, Err(e))
                } else {
                    exists|slot: Result<Timestamp, Seq<char>>| #[trigger]
                        slot_in_words(zone, schedule, now, slot) && match slot {
                            Err(words) => e@ == words,
                            Ok(t) => record_or_refusal(req, now, id, Some(t), Err(e)),
                        }
                },
            };
        match parsed {
            Err(why) => {
                assert(rrule_meaning(req.rrule@, Err(why)));
            },
            Ok(schedule) => {
                if requested_status(req) is Active {
                    let slot = choose|slot: Result<Timestamp, Seq<char>>| #[trigger]
                        slot_in_words(zone, schedule, now, slot) && match slot {
                            Err(words) => e@ == words,
                            Ok(t) => record_or_refusal(req, now, id, Some(t), Err(e)),
                        };
                    if let Err(words) = slot {
                        let found = choose|found: Result<Timestamp, ScheduleError>| #[trigger]
                            next_slot(zone, schedule, now, found) && match found {
                                Err(why) => words == why.text(),
                                Ok(t) => false,
                            };
                        assert(next_slot(zone, schedule, now, Err(found->Err_0)));
                        assert(rrule_meaning(req.rrule@, Ok(schedule)));
                    }
                }
            },
        }
    }
}

/// A change sets just the fields that it names: what it does not name stays as it was.
pub proof fn changes_set_what_they_name(
    zone: Zone,
    old: AutomationRecord,
    req: UpdateAutomationRequest,
    now: Timestamp,
    new: AutomationRecord,
)
    requires
        update(zone, old, req, now, Ok(new)),
    ensures
        new.schema_version == old.schema_version && new.id == old.id && new.created_at
            == old.created_at && new.last_run_at == old.last_run_at,
        new.updated_at == now,
        req.name is None ==> new.name@ == old.name@,
        req.name matches Some(name) ==> new.name@ == trimmed(name@) && new.name@.len() > 0,
        req.prompt is None ==> new.prompt@ == old.prompt@,
        req.prompt matches Some(prompt) ==> new.prompt@ == trimmed(prompt@) && new.prompt@.len()
            > 0,
        req.rrule is None ==> new.rrule@ == old.rrule@,
        req.rrule matches Some(rule) ==> new.rrule@ == upper(trimmed(rule@)),
        req.cwds is None ==> new.cwds == old.cwds,
        req.cwds matches Some(cwds) ==> new.cwds == cwds,
        req.model is None ==> same_words(new.model, old.model),
        req.model is Some ==> is_cleaned(new.model, req.model),
        req.mode is None ==> same_words(new.mode, old.mode),
        req.mode is Some ==> is_stored_mode(new.mode, req.mode),
        req.allow_shell is None ==> new.allow_shell == old.allow_shell,
        req.allow_shell is Some ==> new.allow_shell == req.allow_shell,
        req.trust_mode is None ==> new.trust_mode == old.trust_mode,
        req.trust_mode is Some ==> new.trust_mode == req.trust_mode,
        req.auto_approve is None ==> new.auto_approve == old.auto_approve,
        req.auto_approve is Some ==> new.auto_approve == req.auto_approve,
        req.status is None ==> new.status == old.status,
        req.status matches Some(status) ==> new.status == status,
        req.status == Some(AutomationStatus::Paused) ==> new.next_run_at is None,
        req.status == Some(AutomationStatus::Active) ==> (new.next_run_at matches Some(t) && exists|
            schedule: AutomationSchedule,
        | #[trigger]
            rrule_meaning(new.rrule@, Ok(schedule)) && next_slot(zone, schedule, now, Ok(t))),
        req.status is None && (req.rrule is None || old.status is Paused) ==> new.next_run_at
            == old.next_run_at,
        req.status is None && req.rrule is Some && old.status is Active ==> (
        new.next_run_at matches Some(t) && exists|schedule: AutomationSchedule| #[trigger]
            rrule_meaning(new.rrule@, Ok(schedule)) && next_slot(zone, schedule, now, Ok(t))),
{
    let cursor = choose|cursor: Result<Option<Timestamp>, Seq<char>>| #[trigger]
        cursor_after_rule(zone, old, text_opt(req.rrule), now, cursor) && match cursor {
            Err(words) => false,
            Ok(cursor) => match mode_fault(requested_mode(text_opt(req.mode))) {
                Some(words) => false,
                None => exists|next: Result<Option<Timestamp>, Seq<char>>| #[trigger]
                    cursor_after_status(
                        zone,
                        rule_after(old, req),
                        cursor,
                        req.status,
                        now,
                        next,
                    ) && match next {
                        Err(words) => false,
                        Ok(next) => is_changed_record(old, req, now, next, new),
                    },
            },
        };
    let moved = cursor->Ok_0;
    let rule = rule_after(old, req);
    let next = choose|next: Result<Option<Timestamp>, Seq<char>>| #[trigger]
        cursor_after_status(zone, rule, moved, req.status, now, next) && match next {
            Err(words) => false,
            Ok(next) => is_changed_record(old, req, now, next, new),
        };
    if req.status == Some(AutomationStatus::Active) {
        let slot = choose|slot: Result<Timestamp, Seq<char>>| #[trigger]
            planned_slot(zone, rule, now, slot) && next == as_cursor(slot);
        lemma_planned(zone, rule, now, slot->Ok_0);
    }
    if req.status is None && req.rrule is Some && old.status is Active {
        assert(cursor_under_rule(zone, old, rule, now, cursor));
        let parsed = choose|parsed: Result<AutomationSchedule, ScheduleError>| #[trigger]
            rrule_meaning(rule, parsed) && match parsed {
                Err(e) => false,
                Ok(schedule) => exists|slot: Result<Timestamp, Seq<char>>| #[trigger]
                    slot_in_words(zone, schedule, now, slot) && cursor == as_cursor(slot),
            };
        let schedule = parsed->Ok_0;
        let slot = choose|slot: Result<Timestamp, Seq<char>>| #[trigger]
            slot_in_words(zone, schedule, now, slot) && cursor == as_cursor(slot);
        lemma_slot(zone, schedule, now, slot->Ok_0);
        assert(rrule_meaning(new.rrule@, Ok(schedule)));
    }
}

/// A change is refused only for a blank name or prompt, a mode that does not exist, or a rule that
/// is refused or has no slot, where one has to be found.
pub proof fn changes_are_refused_for_cause(
    zone: Zone,
    old: AutomationRecord,
    req: UpdateAutomationRequest,
    now: Timestamp,
    e: Failure,
)
    requires
        update(zone, old, req, now, Err(e)),
    ensures
        (req.name matches Some(name) && trimmed(name@).len() == 0) ==> e@
            == "Automation name cannot be empty"@,
        !(req.name matches Some(name) && trimmed(name@).len() == 0) && (
        req.prompt matches Some(prompt) && trimmed(prompt@).len() == 0) ==> e@
            == "Automation prompt cannot be empty"@,
        (req.name matches Some(name) && trimmed(name@).len() == 0) || (
        req.prompt matches Some(prompt) && trimmed(prompt@).len() == 0) || is_unknown_mode(req.mode)
            || req.rrule is Some || req.status == Some(AutomationStatus::Active),
{
}

/// A record may be stored under a name just where the name may name a file, is the record's own
/// identifier, and the record has a name, a prompt, a rule that is accepted, and no mode or one of
/// the three.
pub proof fn valid_records_are_whole(record: AutomationRecord, name: Seq<char>)
    ensures
        is_valid_record(record, name) <==> {
            &&& name.len() > 0 && is_safe_id(name)
            &&& record.id@ == name
            &&& trimmed(record.name@).len() > 0
            &&& trimmed(record.prompt@).len() > 0
            &&& exists|schedule: AutomationSchedule| #[trigger]
                rrule_meaning(record.rrule@, Ok(schedule))
            &&& match record.mode {
                Some(mode) => mode@ == "agent"@ || mode@ == "plan"@ || mode@ == "yolo"@,
                None => true,
            }
        },
{
    if is_valid_record(record, name) {
        let parsed = choose|parsed: Result<AutomationSchedule, ScheduleError>| #[trigger]
            rrule_meaning(record.rrule@, parsed) && match parsed {
                Err(e) => false,
                Ok(_) => mode_fault(text_opt(record.mode)) is None,
            };
        assert(rrule_meaning(record.rrule@, Ok(parsed->Ok_0)));
    }
    if exists|schedule: AutomationSchedule| #[trigger] rrule_meaning(record.rrule@, Ok(schedule)) {
        let schedule = choose|schedule: AutomationSchedule| #[trigger]
            rrule_meaning(record.rrule@, Ok(schedule));
        let parsed: Result<AutomationSchedule, ScheduleError> = Ok(schedule);
        assert(rrule_meaning(record.rrule@, parsed));
    }
}

/// A stored file is admitted just where it holds a record of a layout that is known, with no mode
/// or a mode that is known; of the record, only the spelling of the mode may change.
pub proof fn admitted_records_keep_all_but_the_mode(
    file: StoredAutomation,
    out: AdmittedAutomation,
)
    requires
        is_admissible(file),
        is_admission(file, out),
    ensures
        file matches StoredAutomation::Read { file_stem, record } && {
            &&& record.schema_version <= 1
            &&& out.file_stem == file_stem
            &&& out.record == (AutomationRecord { mode: out.record.mode, ..record })
            &&& record.mode is None ==> out.record.mode is None && !out.changed
            &&& record.mode matches Some(mode) ==> (out.record.mode matches Some(word) && {
                &&& out.changed <==> word@ != mode@
                &&& {
                    let low = lower(trimmed(mode@));
                    ||| word@ == "agent"@ && (low == "agent"@ || low == "1"@)
                    ||| word@ == "plan"@ && (low == "plan"@ || low == "2"@)
                    ||| word@ == "yolo"@ && (low == "yolo"@ || low == "3"@)
                }
            })
        },
{
}

/// What is admitted of a list of files is what is admitted of each, in order.
pub proof fn files_are_admitted_one_by_one(
    files: Seq<StoredAutomation>,
    out: Seq<AdmittedAutomation>,
    file: StoredAutomation,
    last: AdmittedAutomation,
)
    requires
        are_admitted(files, out),
    ensures
        !is_admissible(file) ==> are_admitted(files.push(file), out),
        is_admissible(file) && is_admission(file, last) ==> are_admitted(
            files.push(file),
            out.push(last),
        ),
        out.len() <= files.len(),
    decreases files.len(),
{
    assert(files.push(file).drop_last() =~= files);
    assert(out.push(last).drop_last() =~= out);
    if files.len() > 0 {
        if is_admissible(files.last()) {
            files_are_admitted_one_by_one(files.drop_last(), out.drop_last(), file, last);
        } else {
            files_are_admitted_one_by_one(files.drop_last(), out, file, last);
        }
    }
}

proof fn lemma_valid_records(files: Seq<AdmittedAutomation>, record: AutomationRecord)
    ensures
        valid_records(files).contains(record) <==> exists|i: int|
            0 <= i < files.len() && (#[trigger] files[i]).record == record && is_valid_record(
                record,
                files[i].file_stem@,
            ),
    decreases files.len(),
{
    if files.len() > 0 {
        let init = files.drop_last();
        let before = valid_records(init);
        let all = valid_records(files);
        let n = files.len() - 1;
        lemma_valid_records(init, record);
        if all.contains(record) {
            let k = choose|k: int| 0 <= k < all.len() && all[k] == record;
            if k < before.len() {
                assert(before[k] == record);
                let i = choose|i: int|
                    0 <= i < init.len() && (#[trigger] init[i]).record == record && is_valid_record(
                        record,
                        init[i].file_stem@,
                    );
                assert(files[i] == init[i]);
            } else {
                assert(files[n].record == record);
            }
        }
        if exists|i: int|
            0 <= i < files.len() && (#[trigger] files[i]).record == record && is_valid_record(
                record,
                files[i].file_stem@,
            ) {
            let i = choose|i: int|
                0 <= i < files.len() && (#[trigger] files[i]).record == record && is_valid_record(
                    record,
                    files[i].file_stem@,
                );
            if i < n {
                assert(init[i] == files[i]);
                let k = choose|k: int| 0 <= k < before.len() && before[k] == record;
                assert(all[k] == record);
            } else {
                assert(all[before.len() as int] == record);
            }
        }
    }
}

/// A listing shows every record that may stand where it is stored, and no other, what changed last
/// before the others.
pub proof fn listings_show_what_changed_last_first(
    files: Seq<AdmittedAutomation>,
    r: Seq<AutomationRecord>,
    record: AutomationRecord,
)
    requires
        is_sorted_from(valid_records(files), r, changed_later()),
    ensures
        r.contains(record) <==> exists|i: int|
            0 <= i < files.len() && (#[trigger] files[i]).record == record && is_valid_record(
                record,
                files[i].file_stem@,
            ),
        forall|i: int, j: int|
            #![trigger r[i], r[j]]
            0 <= i < j < r.len() ==> r[i].updated_at.secs > r[j].updated_at.secs || (
            r[i].updated_at.secs == r[j].updated_at.secs && r[i].updated_at.nanos
                >= r[j].updated_at.nanos),
{
    let list = valid_records(files);
    lemma_valid_records(files, record);
    sorting_keeps_the_items(list, r, changed_later());
    let p = choose|p: Seq<int>| #[trigger] arranges(p, list, r, changed_later());
    assert forall|i: int, j: int|
        #![trigger r[i], r[j]]
        0 <= i < j < r.len() implies r[i].updated_at.secs > r[j].updated_at.secs || (
    r[i].updated_at.secs == r[j].updated_at.secs && r[i].updated_at.nanos
        >= r[j].updated_at.nanos) by {
        assert(p[i] != p[j]);
        assert(!(changed_later())(r[j], r[i]));
    }
}

} // verus!
