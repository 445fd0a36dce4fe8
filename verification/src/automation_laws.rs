//! What holds of every automation record.
use vstd::prelude::*;
use vstd::string::*;

use crate::automation::{
    canonical_mode, creation, cursor_after_rule, cursor_after_status, is_changed_record, is_mode,
    is_valid_record, later_of, mode_fault, name_and_prompt_fault, record_fault, record_or_refusal,
    requested_mode, requested_status,
    rule_after, slot_in_words, update, as_cursor, cursor_under_rule, AutomationRecord,
    CreateAutomationRequest, UpdateAutomationRequest,
};
use crate::ids::{is_uuid_text, uuid_text_is_a_safe_id};
use crate::rrule::{rrule_meaning, AutomationSchedule, ScheduleError};
use crate::rrule_laws::{a_rule_has_one_meaning, stored_rules_keep_their_meaning};
use crate::schedule::{next_slot, Zone};
use crate::schedule_laws::{accepted_rules_are_well_formed, next_slot_is_later, plausible};
use crate::storage_id::storage_id_fault;
use crate::text::{is_white, lower, lower_char, text_opt, trim_end, trim_start, trimmed};
use crate::time::Timestamp;

verus! {

pub(crate) proof fn lemma_trim_start_stops(s: Seq<char>)
    ensures
        trim_start(s).len() == 0 || !is_white(trim_start(s)[0]),
    decreases s.len(),
{
    if s.len() > 0 && is_white(s[0]) {
        lemma_trim_start_stops(s.drop_first());
    }
}

pub(crate) proof fn lemma_trim_end_stops(s: Seq<char>)
    ensures
        trim_end(s).len() == 0 || (!is_white(trim_end(s).last()) && trim_end(s)[0] == s[0]),
    decreases s.len(),
{
    if s.len() > 0 && is_white(s.last()) {
        lemma_trim_end_stops(s.drop_last());
    }
}

/// Trimming twice is trimming once.
pub proof fn trimming_is_stable(s: Seq<char>)
    ensures
        trimmed(trimmed(s)) == trimmed(s),
{
    lemma_trim_start_stops(s);
    lemma_trim_end_stops(trim_start(s));
}

/// An automation that was created may be stored under its identifier.
pub proof fn created_automations_are_valid(
    zone: Zone,
    req: CreateAutomationRequest,
    now: Timestamp,
    id: Seq<char>,
    record: AutomationRecord,
)
    requires
        is_uuid_text(id),
        creation(zone, req, now, id, Ok(record)),
    ensures
        is_valid_record(record, id),
{
    uuid_text_is_a_safe_id(id);
    trimming_is_stable(req.name@);
    trimming_is_stable(req.prompt@);
    let parsed = choose|parsed: Result<AutomationSchedule, ScheduleError>| #[trigger]
        rrule_meaning(req.rrule@, parsed) && match parsed {
            Err(e) => false,
            Ok(schedule) => if requested_status(req) is Paused {
                record_or_refusal(req, now, id, None, Ok(record))
            } else {
                exists|slot: Result<Timestamp, Seq<char>>| #[trigger]
                    slot_in_words(zone, schedule, now, slot) && match slot {
                        Err(words) => false,
                        Ok(t) => record_or_refusal(req, now, id, Some(t), Ok(record)),
                    }
            },
        };
    stored_rules_keep_their_meaning(req.rrule@, parsed->Ok_0);
    assert(rrule_meaning(record.rrule@, Ok(parsed->Ok_0)));
}

/// A paused automation has no cursor, an active one has one.
pub open spec fn cursor_agrees(record: AutomationRecord) -> bool {
    record.next_run_at is Some <==> record.status is Active
}

/// A slot that a rule gives lies after the time that it is asked for.
pub proof fn lemma_slot_in_words_later(
    zone: Zone,
    rule: Seq<char>,
    schedule: AutomationSchedule,
    now: Timestamp,
    t: Timestamp,
)
    requires
        plausible(zone),
        now.wf(),
        rrule_meaning(rule, Ok(schedule)),
        slot_in_words(zone, schedule, now, Ok(t)),
    ensures
        now.before(t),
        t.wf(),
{
    accepted_rules_are_well_formed(rule, schedule);
    let slot = choose|slot: Result<Timestamp, ScheduleError>| #[trigger]
        next_slot(zone, schedule, now, slot) && match slot {
            Err(e) => false,
            Ok(s) => s == t,
        };
    next_slot_is_later(zone, schedule, now, t);
}

/// A new automation's cursor agrees with its status and lies in the future.
pub proof fn created_automations_run_later(
    zone: Zone,
    req: CreateAutomationRequest,
    now: Timestamp,
    id: Seq<char>,
    record: AutomationRecord,
)
    requires
        plausible(zone),
        now.wf(),
        creation(zone, req, now, id, Ok(record)),
    ensures
        cursor_agrees(record),
        record.next_run_at matches Some(t) ==> now.before(t) && t.wf(),
{
    let parsed = choose|parsed: Result<AutomationSchedule, ScheduleError>| #[trigger]
        rrule_meaning(req.rrule@, parsed) && match parsed {
            Err(e) => false,
            Ok(schedule) => if requested_status(req) is Paused {
                record_or_refusal(req, now, id, None, Ok(record))
            } else {
                exists|slot: Result<Timestamp, Seq<char>>| #[trigger]
                    slot_in_words(zone, schedule, now, slot) && match slot {
                        Err(words) => false,
                        Ok(t) => record_or_refusal(req, now, id, Some(t), Ok(record)),
                    }
            },
        };
    if requested_status(req) is Active {
        let slot = choose|slot: Result<Timestamp, Seq<char>>| #[trigger]
            slot_in_words(zone, parsed->Ok_0, now, slot) && match slot {
                Err(words) => false,
                Ok(t) => record_or_refusal(req, now, id, Some(t), Ok(record)),
            };
        lemma_slot_in_words_later(zone, req.rrule@, parsed->Ok_0, now, slot->Ok_0);
    }
}

/// An update leaves a record that may be stored where the old one was, with a
/// cursor that agrees with its status.
pub proof fn updates_keep_records_valid(
    zone: Zone,
    old: AutomationRecord,
    req: UpdateAutomationRequest,
    now: Timestamp,
    record: AutomationRecord,
)
    requires
        is_valid_record(old, old.id@),
        update(zone, old, req, now, Ok(record)),
    ensures
        is_valid_record(record, old.id@),
        cursor_agrees(old) ==> cursor_agrees(record),
{
    if let Some(name) = req.name {
        trimming_is_stable(name@);
    }
    if let Some(prompt) = req.prompt {
        trimming_is_stable(prompt@);
    }
    let cursor = choose|cursor: Result<Option<Timestamp>, Seq<char>>| #[trigger]
        cursor_after_rule(zone, old, text_opt(req.rrule), now, cursor) && match cursor {
            Err(words) => false,
            Ok(cursor) => match mode_fault(requested_mode(text_opt(req.mode))) {
                Some(words) => false,
                None => exists|next: Result<Option<Timestamp>, Seq<char>>| #[trigger]
                    cursor_after_status(
                        zone,
                        rule_after(old, req),
                        cursor,
                        req.status,
                        now,
                        next,
                    ) && match next {
                        Err(words) => false,
                        Ok(next) => is_changed_record(old, req, now, next, record),
                    },
            },
        };
    let moved = cursor->Ok_0;
    let rule = rule_after(old, req);
    let next = choose|next: Result<Option<Timestamp>, Seq<char>>| #[trigger]
        cursor_after_status(zone, rule, moved, req.status, now, next) && match next {
            Err(words) => false,
            Ok(next) => is_changed_record(old, req, now, next, record),
        };
    if let Some(raw) = req.rrule {
        assert(cursor_under_rule(zone, old, rule, now, cursor));
        let parsed = choose|parsed: Result<AutomationSchedule, ScheduleError>| #[trigger]
            rrule_meaning(rule, parsed) && match parsed {
                Err(e) => false,
                Ok(schedule) => if old.status is Paused {
                    cursor == Ok::<_, Seq<char>>(old.next_run_at)
                } else {
                    exists|slot: Result<Timestamp, Seq<char>>| #[trigger]
                        slot_in_words(zone, schedule, now, slot) && cursor == as_cursor(slot)
                },
            };
        assert(rrule_meaning(record.rrule@, Ok(parsed->Ok_0)));
    } else {
        let parsed = choose|parsed: Result<AutomationSchedule, ScheduleError>| #[trigger]
            rrule_meaning(old.rrule@, parsed) && match parsed {
                Err(e) => false,
                Ok(_) => mode_fault(text_opt(old.mode)) is None,
            };
        assert(rrule_meaning(record.rrule@, Ok(parsed->Ok_0)));
    }
}

/// The time of the last run never moves back.
pub proof fn last_run_never_moves_back(known: Option<Timestamp>, t: Timestamp)
    ensures
        t.at_or_before(later_of(known, t)),
        known matches Some(k) ==> k.at_or_before(later_of(known, t)),
        later_of(known, t) == t || known == Some(later_of(known, t)),
{
}

/// Every stored word that stands for a mode stands for one that may be stored, and
/// that one stands for itself.
pub proof fn canonical_modes_are_stable(mode: Seq<char>)
    ensures
        canonical_mode(mode) matches Some(word) ==> is_mode(word) && canonical_mode(word) == Some(
            word,
        ) && mode_fault(Some(word)) is None,
{
    reveal_strlit("agent");
    reveal_strlit("plan");
    reveal_strlit("yolo");
    reveal_strlit("1");
    reveal_strlit("2");
    reveal_strlit("3");
    assert("plan"@[0] == 'p' && "yolo"@[0] == 'y');
    if let Some(word) = canonical_mode(mode) {
        assert(word.len() > 0);
        assert forall|i: int| 0 <= i < word.len() implies !is_white(#[trigger] word[i]) && lower_char(
            word[i],
        ) == word[i] by {}
        assert(!is_white(word[0]) && !is_white(word.last()));
        assert(trimmed(word) == word);
        assert(lower(word) =~= word);
    }
}

/// There is one answer to what is wrong with a record.
pub proof fn a_record_has_one_fault(
    record: AutomationRecord,
    expected: Seq<char>,
    a: Option<Seq<char>>,
    b: Option<Seq<char>>,
)
    requires
        record_fault(record, expected, a),
        record_fault(record, expected, b),
    ensures
        a == b,
{
    if storage_id_fault("automation filename"@, expected) is None && storage_id_fault(
        "automation id"@,
        record.id@,
    ) is None && record.id@ == expected && name_and_prompt_fault(record.name@, record.prompt@)
        is None {
        let p = choose|parsed: Result<AutomationSchedule, ScheduleError>| #[trigger]
            rrule_meaning(record.rrule@, parsed) && match parsed {
                Err(e) => a == Some(e.text()),
                Ok(_) => a == mode_fault(text_opt(record.mode)),
            };
        let q = choose|parsed: Result<AutomationSchedule, ScheduleError>| #[trigger]
            rrule_meaning(record.rrule@, parsed) && match parsed {
                Err(e) => b == Some(e.text()),
                Ok(_) => b == mode_fault(text_opt(record.mode)),
            };
        a_rule_has_one_meaning(record.rrule@, p, q);
    }
}

} // verus!
