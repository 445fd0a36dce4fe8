//! Automation records: what is stored of a recurring job, and how it changes.
use vstd::prelude::*;
use vstd::string::*;

use crate::failure::{failure, fault_of, Failure};
use crate::ids::{is_uuid_text, new_uuid};
use crate::order::{is_sorted_from, sort_stable};
use crate::rrule::{rrule_meaning, AutomationSchedule, ScheduleError};
use crate::rrule_laws::stored_rule;
use crate::schedule::{
    any_zone, answers_plausibly, lemma_next_slot_within, next_slot, zone_of, zone_within, Zone,
};
use crate::storage_id::{ensure_safe_storage_id, storage_id_fault};
use crate::text::{
    copy_text, decimal, dec, is_blank, join3, lower, same_text, text_opt, to_lower, to_upper, trim,
    trimmed,
};
use crate::time::{local_offset, local_time, now, LocalTime, Timestamp};

verus! {

/// The newest layout of an automation record that is understood.
pub const CURRENT_AUTOMATION_SCHEMA_VERSION: u32 = 1;

/// The newest layout of a run record that is understood.
pub const CURRENT_RUN_SCHEMA_VERSION: u32 = 1;

#[derive(Debug, Clone, Copy, PartialEq, Eq, Structural)]
pub enum AutomationStatus {
    Active,
    Paused,
}

#[derive(Debug, Clone, Copy, PartialEq, Eq, Structural)]
pub enum AutomationRunStatus {
    Queued,
    Running,
    Completed,
    Failed,
    Canceled,
}

/// A recurring job.
#[derive(Debug, Clone)]
pub struct AutomationRecord {
    pub schema_version: u32,
    pub id: String,
    pub name: String,
    pub prompt: String,
    pub rrule: String,
    pub cwds: Vec<String>,
    pub model: Option<String>,
    pub mode: Option<String>,
    pub allow_shell: Option<bool>,
    pub trust_mode: Option<bool>,
    pub auto_approve: Option<bool>,
    pub status: AutomationStatus,
    pub created_at: Timestamp,
    pub updated_at: Timestamp,
    pub next_run_at: Option<Timestamp>,
    pub last_run_at: Option<Timestamp>,
}

/// One run of a recurring job.
#[derive(Debug, Clone)]
pub struct AutomationRunRecord {
    pub schema_version: u32,
    pub id: String,
    pub automation_id: String,
    pub scheduled_for: Timestamp,
    pub status: AutomationRunStatus,
    pub created_at: Timestamp,
    pub started_at: Option<Timestamp>,
    pub ended_at: Option<Timestamp>,
    pub task_id: Option<String>,
    pub thread_id: Option<String>,
    pub turn_id: Option<String>,
    pub error: Option<String>,
}

#[derive(Debug, Clone)]
pub struct CreateAutomationRequest {
    pub name: String,
    pub prompt: String,
    pub rrule: String,
    pub cwds: Vec<String>,
    pub model: Option<String>,
    pub mode: Option<String>,
    pub allow_shell: Option<bool>,
    pub trust_mode: Option<bool>,
    pub auto_approve: Option<bool>,
    pub status: Option<AutomationStatus>,
}

/// What to change of an automation; a field that is absent stays as it is.
#[derive(Debug, Clone)]
pub struct UpdateAutomationRequest {
    pub name: Option<String>,
    pub prompt: Option<String>,
    pub rrule: Option<String>,
    pub cwds: Option<Vec<String>>,
    pub model: Option<String>,
    pub mode: Option<String>,
    pub allow_shell: Option<bool>,
    pub trust_mode: Option<bool>,
    pub auto_approve: Option<bool>,
    pub status: Option<AutomationStatus>,
}

impl Default for UpdateAutomationRequest {
    fn default() -> (r: Self)
        ensures
            r == (UpdateAutomationRequest {
                name: None,
                prompt: None,
                rrule: None,
                cwds: None,
                model: None,
                mode: None,
                allow_shell: None,
                trust_mode: None,
                auto_approve: None,
                status: None,
            }),
    {
        UpdateAutomationRequest {
            name: None,
            prompt: None,
            rrule: None,
            cwds: None,
            model: None,
            mode: None,
            allow_shell: None,
            trust_mode: None,
            auto_approve: None,
            status: None,
        }
    }
}

/// A request that pauses an automation and changes nothing else.
pub fn pause_request() -> (r: UpdateAutomationRequest)
    ensures
        r.status == Some(AutomationStatus::Paused),
        r.name is None && r.prompt is None && r.rrule is None && r.cwds is None && r.model is None,
        r.mode is None && r.allow_shell is None && r.trust_mode is None && r.auto_approve is None,
{
    UpdateAutomationRequest {
        status: Some(AutomationStatus::Paused),
        ..UpdateAutomationRequest::default()
    }
}

/// A request that resumes an automation and changes nothing else.
pub fn resume_request() -> (r: UpdateAutomationRequest)
    ensures
        r.status == Some(AutomationStatus::Active),
        r.name is None && r.prompt is None && r.rrule is None && r.cwds is None && r.model is None,
        r.mode is None && r.allow_shell is None && r.trust_mode is None && r.auto_approve is None,
{
    UpdateAutomationRequest {
        status: Some(AutomationStatus::Active),
        ..UpdateAutomationRequest::default()
    }
}

impl AutomationRunStatus {
    pub open spec fn terminal(self) -> bool {
        self is Completed || self is Failed || self is Canceled
    }
}

/// Whether a run with this status has come to its end.
pub fn is_terminal_run_status(status: AutomationRunStatus) -> (r: bool)
    ensures
        r == status.terminal(),
{
    match status {
        AutomationRunStatus::Completed
        | AutomationRunStatus::Failed
        | AutomationRunStatus::Canceled => true,
        AutomationRunStatus::Queued | AutomationRunStatus::Running => false,
    }
}

impl AutomationRecord {
    /// The mode that the job's tasks run in.
    pub open spec fn task_mode_spec(self) -> Seq<char> {
        match self.mode {
            Some(mode) => if is_blank(mode@) {
                "agent"@
            } else {
                trimmed(mode@)
            },
            None => "agent"@,
        }
    }

    /// The mode that the job's tasks run in.
    pub fn task_mode(&self) -> (r: String)
        ensures
            r@ == self.task_mode_spec(),
    {
        match &self.mode {
            Some(mode) => {
                let bare = trim(mode.as_str());
                if bare.as_str().unicode_len() > 0 {
                    bare
                } else {
                    copy_text("agent")
                }
            },
            None => copy_text("agent"),
        }
    }

    /// Whether the job's tasks may use a shell: not unless the job says so.
    pub fn task_allow_shell(&self) -> (r: bool)
        ensures
            r == (self.allow_shell == Some(true)),
    {
        match self.allow_shell {
            Some(b) => b,
            None => false,
        }
    }

    /// Whether the job's tasks run in trust mode: not unless the job says so.
    pub fn task_trust_mode(&self) -> (r: bool)
        ensures
            r == (self.trust_mode == Some(true)),
    {
        match self.trust_mode {
            Some(b) => b,
            None => false,
        }
    }

    /// Whether the job's tasks approve their own tool calls: not unless the job says so.
    pub fn task_auto_approve(&self) -> (r: bool)
        ensures
            r == (self.auto_approve == Some(true)),
    {
        match self.auto_approve {
            Some(b) => b,
            None => false,
        }
    }
}

// Checks ---------------------------------------------------------------------
pub open spec fn name_and_prompt_fault(name: Seq<char>, prompt: Seq<char>) -> Option<Seq<char>> {
    if is_blank(name) {
        Some("Automation name is required"@)
    } else if is_blank(prompt) {
        Some("Automation prompt is required"@)
    } else {
        None
    }
}

fn blank(s: &str) -> (r: bool)
    ensures
        r == is_blank(s@),
{
    trim(s).as_str().unicode_len() == 0
}

/// Accepts a name and a prompt that are not blank.
pub fn validate_name_and_prompt(name: &str, prompt: &str) -> (r: Result<(), Failure>)
    ensures
        fault_of(r) == name_and_prompt_fault(name@, prompt@),
{
    if blank(name) {
        return Err(failure("Automation name is required"));
    }
    if blank(prompt) {
        return Err(failure("Automation prompt is required"));
    }
    Ok(())
}

/// The modes that a record may hold.
pub open spec fn is_mode(mode: Seq<char>) -> bool {
    mode == "agent"@ || mode == "plan"@ || mode == "yolo"@
}

pub open spec fn mode_refusal(mode: Seq<char>) -> Seq<char> {
    "Invalid automation mode '"@ + mode + "'. Expected one of: agent, plan, yolo"@
}

pub open spec fn mode_fault(mode: Option<Seq<char>>) -> Option<Seq<char>> {
    match mode {
        Some(m) => if is_mode(m) {
            None
        } else {
            Some(mode_refusal(m))
        },
        None => None,
    }
}

fn bad_mode(mode: &str) -> (r: Failure)
    ensures
        r@ == mode_refusal(mode@),
{
    Failure {
        message: join3(
            "Invalid automation mode '",
            mode,
            "'. Expected one of: agent, plan, yolo",
        ),
    }
}

/// Accepts one of the modes, or none.
pub fn validate_persisted_mode(mode: &Option<String>) -> (r: Result<(), Failure>)
    ensures
        fault_of(r) == mode_fault(text_opt(*mode)),
{
    match mode {
        None => Ok(()),
        Some(m) => if same_text(m.as_str(), "agent") || same_text(m.as_str(), "plan") || same_text(
            m.as_str(),
            "yolo",
        ) {
            Ok(())
        } else {
            Err(bad_mode(m.as_str()))
        },
    }
}

/// An optional text without surrounding white space; nothing where nothing is left.
pub open spec fn cleaned(value: Option<Seq<char>>) -> Option<Seq<char>> {
    match value {
        Some(v) => if is_blank(v) {
            None
        } else {
            Some(trimmed(v))
        },
        None => None,
    }
}

/// Drops surrounding white space, and a text that holds nothing else.
pub fn normalize_optional_string(value: Option<String>) -> (r: Option<String>)
    ensures
        text_opt(r) == cleaned(text_opt(value)),
{
    match value {
        None => None,
        Some(v) => {
            let bare = trim(v.as_str());
            if bare.as_str().unicode_len() > 0 {
                Some(bare)
            } else {
                None
            }
        },
    }
}

/// A requested mode in the form that is stored.
pub open spec fn requested_mode(value: Option<Seq<char>>) -> Option<Seq<char>> {
    match cleaned(value) {
        Some(v) => Some(lower(v)),
        None => None,
    }
}

/// Brings a requested mode into the form that is stored, and refuses one that does
/// not exist.
pub fn normalize_optional_mode(value: Option<String>) -> (r: Result<Option<String>, Failure>)
    ensures
        match mode_fault(requested_mode(text_opt(value))) {
            Some(words) => r matches Err(e) && e@ == words,
            None => r matches Ok(mode) && text_opt(mode) == requested_mode(text_opt(value)),
        },
{
    let normalized = match normalize_optional_string(value) {
        Some(v) => Some(to_lower(v.as_str())),
        None => None,
    };
    match validate_persisted_mode(&normalized) {
        Err(e) => Err(e),
        Ok(()) => Ok(normalized),
    }
}

/// The mode that a stored word or number stands for.
pub open spec fn canonical_mode(mode: Seq<char>) -> Option<Seq<char>> {
    let word = lower(trimmed(mode));
    if word == "agent"@ || word == "1"@ {
        Some("agent"@)
    } else if word == "plan"@ || word == "2"@ {
        Some("plan"@)
    } else if word == "yolo"@ || word == "3"@ {
        Some("yolo"@)
    } else {
        None
    }
}

/// Brings the mode of a stored record into its usual form, and says whether that
/// changed it. A record whose mode does not exist is refused and left alone.
pub fn normalize_persisted_mode(record: &mut AutomationRecord) -> (r: Result<bool, Failure>)
    ensures
        *final(record) == (AutomationRecord { mode: final(record).mode, ..*old(record) }),
        match text_opt(old(record).mode) {
            None => r == Ok::<bool, Failure>(false) && final(record).mode == old(record).mode,
            Some(mode) => match canonical_mode(mode) {
                None => (r matches Err(e) && e@ == mode_refusal(mode)) && final(record).mode == old(
                    record,
                ).mode,
                Some(word) => r == Ok::<bool, Failure>(mode != word) && text_opt(final(record).mode)
                    == Some(word),
            },
        },
{
    let word = match &record.mode {
        None => {
            return Ok(false);
        },
        Some(mode) => to_lower(trim(mode.as_str()).as_str()),
    };
    let canonical = if same_text(word.as_str(), "agent") || same_text(word.as_str(), "1") {
        "agent"
    } else if same_text(word.as_str(), "plan") || same_text(word.as_str(), "2") {
        "plan"
    } else if same_text(word.as_str(), "yolo") || same_text(word.as_str(), "3") {
        "yolo"
    } else {
        return match &record.mode {
            Some(mode) => Err(bad_mode(mode.as_str())),
            None => Ok(false),
        };
    };
    let same = match &record.mode {
        Some(mode) => same_text(mode.as_str(), canonical),
        None => true,
    };
    if same {
        return Ok(false);
    }
    record.mode = Some(copy_text(canonical));
    Ok(true)
}

pub open spec fn newer_schema(what: Seq<char>, found: u32, supported: u32) -> Seq<char> {
    what + " schema v"@ + dec(found as nat) + " is newer than supported v"@ + dec(supported as nat)
}

/// The words for a record whose layout is too new.
pub fn newer_schema_failure(what: &str, found: u32, supported: u32) -> (r: Failure)
    ensures
        r@ == newer_schema(what@, found, supported),
{
    let mut message = join3(what, " schema v", decimal(found as u64).as_str());
    message.append(" is newer than supported v");
    message.append(decimal(supported as u64).as_str());
    Failure { message }
}

/// Admits a record that was read from storage: refuses a layout that is too new or
/// a mode that does not exist, and brings the mode into its usual form. The flag
/// says whether the record differs from what was read.
pub fn admit_automation(record: AutomationRecord) -> (r: Result<(AutomationRecord, bool), Failure>)
    ensures
        if record.schema_version > CURRENT_AUTOMATION_SCHEMA_VERSION {
            r matches Err(e) && e@ == newer_schema(
                "Automation"@,
                record.schema_version,
                CURRENT_AUTOMATION_SCHEMA_VERSION,
            )
        } else {
            match text_opt(record.mode) {
                None => r == Ok::<_, Failure>((record, false)),
                Some(mode) => match canonical_mode(mode) {
                    None => r matches Err(e) && e@ == mode_refusal(mode),
                    Some(word) => r matches Ok((out, changed)) && changed == (mode != word)
                        && out == (AutomationRecord { mode: out.mode, ..record }) && text_opt(
                        out.mode,
                    ) == Some(word),
                },
            }
        },
{
    if record.schema_version > CURRENT_AUTOMATION_SCHEMA_VERSION {
        return Err(
            newer_schema_failure(
                "Automation",
                record.schema_version,
                CURRENT_AUTOMATION_SCHEMA_VERSION,
            ),
        );
    }
    let mut out = record;
    match normalize_persisted_mode(&mut out) {
        Err(e) => Err(e),
        Ok(changed) => Ok((out, changed)),
    }
}

pub open spec fn id_mismatch(id: Seq<char>, expected: Seq<char>) -> Seq<char> {
    "Automation id '"@ + id + "' does not match file stem '"@ + expected + "'"@
}

/// What is wrong with a record that is stored under `expected`.
pub open spec fn record_fault(
    record: AutomationRecord,
    expected: Seq<char>,
    fault: Option<Seq<char>>,
) -> bool {
    let filename = storage_id_fault("automation filename"@, expected);
    let own = storage_id_fault("automation id"@, record.id@);
    let words = name_and_prompt_fault(record.name@, record.prompt@);
    if filename is Some {
        fault == filename
    } else if own is Some {
        fault == own
    } else if record.id@ != expected {
        fault == Some(id_mismatch(record.id@, expected))
    } else if words is Some {
        fault == words
    } else {
        exists|parsed: Result<AutomationSchedule, ScheduleError>| #[trigger]
            rrule_meaning(record.rrule@, parsed) && match parsed {
                Err(e) => fault == Some(e.text()),
                Ok(_) => fault == mode_fault(text_opt(record.mode)),
            }
    }
}

/// A record that may be stored under `expected`.
pub open spec fn is_valid_record(record: AutomationRecord, expected: Seq<char>) -> bool {
    record_fault(record, expected, None)
}

/// Accepts a record that may be stored under `expected_id`.
pub fn validate_automation_record(record: &AutomationRecord, expected_id: &str) -> (r: Result<
    (),
    Failure,
>)
    ensures
        record_fault(*record, expected_id@, fault_of(r)),
{
    if let Err(e) = ensure_safe_storage_id("automation filename", expected_id) {
        return Err(e);
    }
    if let Err(e) = ensure_safe_storage_id("automation id", record.id.as_str()) {
        return Err(e);
    }
    if !same_text(record.id.as_str(), expected_id) {
        let mut message = join3(
            "Automation id '",
            record.id.as_str(),
            "' does not match file stem '",
        );
        message.append(expected_id);
        message.append("'");
        return Err(Failure { message });
    }
    if let Err(e) = validate_name_and_prompt(record.name.as_str(), record.prompt.as_str()) {
        return Err(e);
    }
    let parsed = AutomationSchedule::parse_rrule(record.rrule.as_str());
    assert(rrule_meaning(record.rrule@, parsed));
    match parsed {
        Err(e) => Err(Failure { message: e.message() }),
        Ok(_) => validate_persisted_mode(&record.mode),
    }
}

// Changes --------------------------------------------------------------------
/// The next slot that a rule gives after `now`, or the words that say why not.
pub open spec fn planned_slot(
    zone: Zone,
    rrule: Seq<char>,
    now: Timestamp,
    out: Result<Timestamp, Seq<char>>,
) -> bool {
    exists|parsed: Result<AutomationSchedule, ScheduleError>| #[trigger]
        rrule_meaning(rrule, parsed) && match parsed {
            Err(e) => out == Err::<Timestamp, _>(e.text()),
            Ok(schedule) => slot_in_words(zone, schedule, now, out),
        }
}

pub open spec fn slot_in_words(
    zone: Zone,
    schedule: AutomationSchedule,
    now: Timestamp,
    out: Result<Timestamp, Seq<char>>,
) -> bool {
    exists|slot: Result<Timestamp, ScheduleError>| #[trigger]
        next_slot(zone, schedule, now, slot) && match slot {
            Err(e) => out == Err::<Timestamp, _>(e.text()),
            Ok(t) => out == Ok::<_, Seq<char>>(t),
        }
}

/// The record that a request asks for, with its cursor at `next`.
pub open spec fn is_new_record(
    req: CreateAutomationRequest,
    now: Timestamp,
    id: Seq<char>,
    next: Option<Timestamp>,
    record: AutomationRecord,
) -> bool {
    &&& record.schema_version == CURRENT_AUTOMATION_SCHEMA_VERSION
    &&& record.id@ == id
    &&& record.name@ == trimmed(req.name@)
    &&& record.prompt@ == trimmed(req.prompt@)
    &&& record.rrule@ == stored_rule(req.rrule@)
    &&& record.cwds == req.cwds
    &&& text_opt(record.model) == cleaned(text_opt(req.model))
    &&& text_opt(record.mode) == requested_mode(text_opt(req.mode))
    &&& record.allow_shell == req.allow_shell
    &&& record.trust_mode == req.trust_mode
    &&& record.auto_approve == req.auto_approve
    &&& record.status == requested_status(req)
    &&& record.created_at == now
    &&& record.updated_at == now
    &&& record.next_run_at == next
    &&& record.last_run_at is None
}

/// The status that a new automation starts with: active unless asked otherwise.
pub open spec fn requested_status(req: CreateAutomationRequest) -> AutomationStatus {
    match req.status {
        Some(status) => status,
        None => AutomationStatus::Active,
    }
}

/// What is made of a request once its cursor is known.
pub open spec fn record_or_refusal(
    req: CreateAutomationRequest,
    now: Timestamp,
    id: Seq<char>,
    next: Option<Timestamp>,
    r: Result<AutomationRecord, Failure>,
) -> bool {
    match mode_fault(requested_mode(text_opt(req.mode))) {
        Some(words) => r matches Err(e) && e@ == words,
        None => r matches Ok(record) && is_new_record(req, now, id, next, record),
    }
}

/// What [`create_automation_with`] makes of a request.
pub open spec fn creation(
    zone: Zone,
    req: CreateAutomationRequest,
    now: Timestamp,
    id: Seq<char>,
    r: Result<AutomationRecord, Failure>,
) -> bool {
    match name_and_prompt_fault(req.name@, req.prompt@) {
        Some(words) => r matches Err(e) && e@ == words,
        None => exists|parsed: Result<AutomationSchedule, ScheduleError>| #[trigger]
            rrule_meaning(req.rrule@, parsed) && match parsed {
                Err(e) => r matches Err(f) && f@ == e.text(),
                Ok(schedule) => if requested_status(req) is Paused {
                    record_or_refusal(req, now, id, None, r)
                } else {
                    exists|slot: Result<Timestamp, Seq<char>>| #[trigger]
                        slot_in_words(zone, schedule, now, slot) && match slot {
                            Err(words) => r matches Err(f) && f@ == words,
                            Ok(t) => record_or_refusal(req, now, id, Some(t), r),
                        }
                },
            },
    }
}

fn slot_after<F: Fn(Timestamp) -> i32, G: Fn(i64) -> LocalTime>(
    schedule: &AutomationSchedule,
    at: Timestamp,
    offset_of: &F,
    reading_of: &G,
) -> (r: Result<Timestamp, Failure>)
    requires
        at.wf(),
        answers_plausibly(*offset_of, *reading_of),
    ensures
        slot_in_words(zone_of(*offset_of, *reading_of), *schedule, at, in_words(r)),
{
    let slot = schedule.next_after_with(at, offset_of, reading_of);
    assert(next_slot(zone_of(*offset_of, *reading_of), *schedule, at, slot));
    match slot {
        Ok(t) => Ok(t),
        Err(e) => Err(Failure { message: e.message() }),
    }
}

/// A result with its failure in words.
pub open spec fn in_words<T>(r: Result<T, Failure>) -> Result<T, Seq<char>> {
    match r {
        Ok(t) => Ok(t),
        Err(e) => Err(e@),
    }
}

/// The automation that a request asks for, in the zone that the two last arguments
/// answer for.
pub fn create_automation_with<F: Fn(Timestamp) -> i32, G: Fn(i64) -> LocalTime>(
    req: CreateAutomationRequest,
    at: Timestamp,
    id: String,
    offset_of: &F,
    reading_of: &G,
) -> (r: Result<AutomationRecord, Failure>)
    requires
        at.wf(),
        answers_plausibly(*offset_of, *reading_of),
    ensures
        creation(zone_of(*offset_of, *reading_of), req, at, id@, r),
{
    if let Err(e) = validate_name_and_prompt(req.name.as_str(), req.prompt.as_str()) {
        return Err(e);
    }
    let parsed = AutomationSchedule::parse_rrule(req.rrule.as_str());
    assert(rrule_meaning(req.rrule@, parsed));
    let schedule = match &parsed {
        Err(e) => {
            return Err(Failure { message: e.message() });
        },
        Ok(schedule) => schedule,
    };
    let status = match req.status {
        Some(status) => status,
        None => AutomationStatus::Active,
    };
    let next_run_at = match status {
        AutomationStatus::Active => {
            let slot = slot_after(schedule, at, offset_of, reading_of);
            assert(slot_in_words(
                zone_of(*offset_of, *reading_of),
                *schedule,
                at,
                in_words(slot),
            ));
            match slot {
                Err(e) => {
                    return Err(e);
                },
                Ok(t) => Some(t),
            }
        },
        AutomationStatus::Paused => None,
    };
    let mode = match normalize_optional_mode(req.mode) {
        Err(e) => {
            return Err(e);
        },
        Ok(mode) => mode,
    };
    Ok(
        AutomationRecord {
            schema_version: CURRENT_AUTOMATION_SCHEMA_VERSION,
            id,
            name: trim(req.name.as_str()),
            prompt: trim(req.prompt.as_str()),
            rrule: to_upper(trim(req.rrule.as_str()).as_str()),
            cwds: req.cwds,
            model: normalize_optional_string(req.model),
            mode,
            allow_shell: req.allow_shell,
            trust_mode: req.trust_mode,
            auto_approve: req.auto_approve,
            status,
            created_at: at,
            updated_at: at,
            next_run_at,
            last_run_at: None,
        },
    )
}

/// The automation that a request asks for, made now, with a fresh identifier, in
/// the machine's time zone.
pub fn create_automation(req: CreateAutomationRequest) -> (r: Result<AutomationRecord, Failure>)
    ensures
        exists|at: Timestamp, id: Seq<char>|
            at.wf() && is_uuid_text(id) && #[trigger] creation(any_zone(), req, at, id, r),
{
    let at = now();
    let id = new_uuid();
    let ghost name = id@;
    let r = create_automation_with(req, at, id, &local_offset, &local_time);
    proof {
        let zone = zone_of(local_offset, local_time);
        assert(zone_within(zone, any_zone()));
        lemma_creation_within(zone, any_zone(), req, at, name, r);
    }
    r
}

/// A zone that may give more answers may give more slots.
pub proof fn lemma_slot_in_words_within(
    small: Zone,
    large: Zone,
    schedule: AutomationSchedule,
    now: Timestamp,
    out: Result<Timestamp, Seq<char>>,
)
    requires
        zone_within(small, large),
        slot_in_words(small, schedule, now, out),
    ensures
        slot_in_words(large, schedule, now, out),
{
    let slot = choose|slot: Result<Timestamp, ScheduleError>| #[trigger]
        next_slot(small, schedule, now, slot) && match slot {
            Err(e) => out == Err::<Timestamp, _>(e.text()),
            Ok(t) => out == Ok::<_, Seq<char>>(t),
        };
    lemma_next_slot_within(small, large, schedule, now, slot);
}

proof fn lemma_creation_within(
    small: Zone,
    large: Zone,
    req: CreateAutomationRequest,
    now: Timestamp,
    id: Seq<char>,
    r: Result<AutomationRecord, Failure>,
)
    requires
        zone_within(small, large),
        creation(small, req, now, id, r),
    ensures
        creation(large, req, now, id, r),
{
    if name_and_prompt_fault(req.name@, req.prompt@) is None {
        let parsed = choose|parsed: Result<AutomationSchedule, ScheduleError>| #[trigger]
            rrule_meaning(req.rrule@, parsed) && match parsed {
                Err(e) => r matches Err(f) && f@ == e.text(),
                Ok(schedule) => if requested_status(req) is Paused {
                    record_or_refusal(req, now, id, None, r)
                } else {
                    exists|slot: Result<Timestamp, Seq<char>>| #[trigger]
                        slot_in_words(small, schedule, now, slot) && match slot {
                            Err(words) => r matches Err(f) && f@ == words,
                            Ok(t) => record_or_refusal(req, now, id, Some(t), r),
                        }
                },
            };
        if let Ok(schedule) = parsed {
            if requested_status(req) is Active {
                let slot = choose|slot: Result<Timestamp, Seq<char>>| #[trigger]
                    slot_in_words(small, schedule, now, slot) && match slot {
                        Err(words) => r matches Err(f) && f@ == words,
                        Ok(t) => record_or_refusal(req, now, id, Some(t), r),
                    };
                lemma_slot_in_words_within(small, large, schedule, now, slot);
            }
        }
    }
}

// Updates --------------------------------------------------------------------
/// A slot as a cursor.
pub open spec fn as_cursor(slot: Result<Timestamp, Seq<char>>) -> Result<
    Option<Timestamp>,
    Seq<char>,
> {
    match slot {
        Ok(t) => Ok(Some(t)),
        Err(words) => Err(words),
    }
}

/// The cursor after a new rule, where one is asked for.
pub open spec fn cursor_after_rule(
    zone: Zone,
    record: AutomationRecord,
    rrule: Option<Seq<char>>,
    now: Timestamp,
    out: Result<Option<Timestamp>, Seq<char>>,
) -> bool {
    match rrule {
        None => out == Ok::<_, Seq<char>>(record.next_run_at),
        Some(raw) => cursor_under_rule(zone, record, stored_rule(raw), now, out),
    }
}

/// The cursor of a record that takes on `rule`.
pub open spec fn cursor_under_rule(
    zone: Zone,
    record: AutomationRecord,
    rule: Seq<char>,
    now: Timestamp,
    out: Result<Option<Timestamp>, Seq<char>>,
) -> bool {
    exists|parsed: Result<AutomationSchedule, ScheduleError>| #[trigger]
        rrule_meaning(rule, parsed) && match parsed {
            Err(e) => out == Err::<Option<Timestamp>, _>(e.text()),
            Ok(schedule) => if record.status is Paused {
                out == Ok::<_, Seq<char>>(record.next_run_at)
            } else {
                exists|slot: Result<Timestamp, Seq<char>>| #[trigger]
                    slot_in_words(zone, schedule, now, slot) && out == as_cursor(slot)
            },
        }
}

/// The cursor after a new status, where one is asked for.
pub open spec fn cursor_after_status(
    zone: Zone,
    rrule: Seq<char>,
    cursor: Option<Timestamp>,
    status: Option<AutomationStatus>,
    now: Timestamp,
    out: Result<Option<Timestamp>, Seq<char>>,
) -> bool {
    match status {
        None => out == Ok::<_, Seq<char>>(cursor),
        Some(AutomationStatus::Paused) => out == Ok::<_, Seq<char>>(None::<Timestamp>),
        Some(AutomationStatus::Active) => exists|slot: Result<Timestamp, Seq<char>>| #[trigger]
            planned_slot(zone, rrule, now, slot) && out == as_cursor(slot),
    }
}

/// The rule that a record has once a request is met.
pub open spec fn rule_after(record: AutomationRecord, req: UpdateAutomationRequest) -> Seq<char> {
    match req.rrule {
        Some(raw) => stored_rule(raw@),
        None => record.rrule@,
    }
}

/// The record that a request leaves, with its cursor at `next`.
pub open spec fn is_changed_record(
    old: AutomationRecord,
    req: UpdateAutomationRequest,
    now: Timestamp,
    next: Option<Timestamp>,
    record: AutomationRecord,
) -> bool {
    &&& record.schema_version == old.schema_version
    &&& record.id == old.id
    &&& record.name@ == match req.name {
        Some(name) => trimmed(name@),
        None => old.name@,
    }
    &&& record.prompt@ == match req.prompt {
        Some(prompt) => trimmed(prompt@),
        None => old.prompt@,
    }
    &&& record.rrule@ == rule_after(old, req)
    &&& record.cwds == match req.cwds {
        Some(cwds) => cwds,
        None => old.cwds,
    }
    &&& text_opt(record.model) == match req.model {
        Some(model) => cleaned(Some(model@)),
        None => text_opt(old.model),
    }
    &&& text_opt(record.mode) == match req.mode {
        Some(mode) => requested_mode(Some(mode@)),
        None => text_opt(old.mode),
    }
    &&& record.allow_shell == (if req.allow_shell is Some {
        req.allow_shell
    } else {
        old.allow_shell
    })
    &&& record.trust_mode == (if req.trust_mode is Some {
        req.trust_mode
    } else {
        old.trust_mode
    })
    &&& record.auto_approve == (if req.auto_approve is Some {
        req.auto_approve
    } else {
        old.auto_approve
    })
    &&& record.status == match req.status {
        Some(status) => status,
        None => old.status,
    }
    &&& record.created_at == old.created_at
    &&& record.updated_at == now
    &&& record.next_run_at == next
    &&& record.last_run_at == old.last_run_at
}

/// What [`update_automation_with`] makes of a request.
pub open spec fn update(
    zone: Zone,
    old: AutomationRecord,
    req: UpdateAutomationRequest,
    now: Timestamp,
    r: Result<AutomationRecord, Failure>,
) -> bool {
    if req.name matches Some(name) && is_blank(name@) {
        r matches Err(e) && e@ == "Automation name cannot be empty"@
    } else if req.prompt matches Some(prompt) && is_blank(prompt@) {
        r matches Err(e) && e@ == "Automation prompt cannot be empty"@
    } else {
        exists|cursor: Result<Option<Timestamp>, Seq<char>>| #[trigger]
            cursor_after_rule(zone, old, text_opt(req.rrule), now, cursor) && match cursor {
                Err(words) => r matches Err(e) && e@ == words,
                Ok(cursor) => match mode_fault(requested_mode(text_opt(req.mode))) {
                    Some(words) => r matches Err(e) && e@ == words,
                    None => exists|next: Result<Option<Timestamp>, Seq<char>>| #[trigger]
                        cursor_after_status(
                            zone,
                            rule_after(old, req),
                            cursor,
                            req.status,
                            now,
                            next,
                        ) && match next {
                            Err(words) => r matches Err(e) && e@ == words,
                            Ok(next) => r matches Ok(record) && is_changed_record(
                                old,
                                req,
                                now,
                                next,
                                record,
                            ),
                        },
                },
            }
    }
}

fn cursor_for_rule<F: Fn(Timestamp) -> i32, G: Fn(i64) -> LocalTime>(
    record: &AutomationRecord,
    rrule: &Option<String>,
    at: Timestamp,
    offset_of: &F,
    reading_of: &G,
) -> (r: Result<Option<Timestamp>, Failure>)
    requires
        at.wf(),
        answers_plausibly(*offset_of, *reading_of),
    ensures
        cursor_after_rule(
            zone_of(*offset_of, *reading_of),
            *record,
            text_opt(*rrule),
            at,
            in_words(r),
        ),
{
    let ghost zone = zone_of(*offset_of, *reading_of);
    let raw = match rrule {
        None => {
            return Ok(record.next_run_at);
        },
        Some(raw) => raw,
    };
    let normalized = to_upper(trim(raw.as_str()).as_str());
    let parsed = AutomationSchedule::parse_rrule(normalized.as_str());
    assert(rrule_meaning(stored_rule(raw@), parsed));
    let schedule = match &parsed {
        Err(e) => {
            return Err(Failure { message: e.message() });
        },
        Ok(schedule) => schedule,
    };
    match record.status {
        AutomationStatus::Paused => Ok(record.next_run_at),
        AutomationStatus::Active => {
            let slot = slot_after(schedule, at, offset_of, reading_of);
            let ghost told = in_words(slot);
            assert(slot_in_words(zone, *schedule, at, told));
            let cursor: Result<Option<Timestamp>, Failure> = match slot {
                Err(e) => Err(e),
                Ok(t) => Ok(Some(t)),
            };
            assert(in_words(cursor) == as_cursor(told));
            cursor
        },
    }
}

/// The next slot that a rule gives after `at`.
pub fn plan_slot_with<F: Fn(Timestamp) -> i32, G: Fn(i64) -> LocalTime>(
    rrule: &str,
    at: Timestamp,
    offset_of: &F,
    reading_of: &G,
) -> (r: Result<Timestamp, Failure>)
    requires
        at.wf(),
        answers_plausibly(*offset_of, *reading_of),
    ensures
        planned_slot(zone_of(*offset_of, *reading_of), rrule@, at, in_words(r)),
{
    let parsed = AutomationSchedule::parse_rrule(rrule);
    assert(rrule_meaning(rrule@, parsed));
    match &parsed {
        Err(e) => Err(Failure { message: e.message() }),
        Ok(schedule) => slot_after(schedule, at, offset_of, reading_of),
    }
}

fn cursor_for_status<F: Fn(Timestamp) -> i32, G: Fn(i64) -> LocalTime>(
    rrule: &str,
    cursor: Option<Timestamp>,
    status: Option<AutomationStatus>,
    at: Timestamp,
    offset_of: &F,
    reading_of: &G,
) -> (r: Result<Option<Timestamp>, Failure>)
    requires
        at.wf(),
        answers_plausibly(*offset_of, *reading_of),
    ensures
        cursor_after_status(
            zone_of(*offset_of, *reading_of),
            rrule@,
            cursor,
            status,
            at,
            in_words(r),
        ),
{
    match status {
        None => Ok(cursor),
        Some(AutomationStatus::Paused) => Ok(None),
        Some(AutomationStatus::Active) => {
            let slot = plan_slot_with(rrule, at, offset_of, reading_of);
            assert(planned_slot(zone_of(*offset_of, *reading_of), rrule@, at, in_words(slot)));
            match slot {
                Err(e) => Err(e),
                Ok(t) => Ok(Some(t)),
            }
        },
    }
}

/// The record that a request leaves of an automation, in the zone that the two last
/// arguments answer for.
pub fn update_automation_with<F: Fn(Timestamp) -> i32, G: Fn(i64) -> LocalTime>(
    old: AutomationRecord,
    req: UpdateAutomationRequest,
    at: Timestamp,
    offset_of: &F,
    reading_of: &G,
) -> (r: Result<AutomationRecord, Failure>)
    requires
        at.wf(),
        answers_plausibly(*offset_of, *reading_of),
    ensures
        update(zone_of(*offset_of, *reading_of), old, req, at, r),
{
    let ghost zone = zone_of(*offset_of, *reading_of);
    if let Some(name) = &req.name {
        if blank(name.as_str()) {
            return Err(failure("Automation name cannot be empty"));
        }
    }
    if let Some(prompt) = &req.prompt {
        if blank(prompt.as_str()) {
            return Err(failure("Automation prompt cannot be empty"));
        }
    }
    let moved = cursor_for_rule(&old, &req.rrule, at, offset_of, reading_of);
    assert(cursor_after_rule(zone, old, text_opt(req.rrule), at, in_words(moved)));
    let cursor = match moved {
        Err(e) => {
            return Err(e);
        },
        Ok(cursor) => cursor,
    };
    let rrule = match &req.rrule {
        Some(raw) => to_upper(trim(raw.as_str()).as_str()),
        None => copy_text(old.rrule.as_str()),
    };
    let mode = match req.mode {
        None => old.mode,
        Some(mode) => match normalize_optional_mode(Some(mode)) {
            Err(e) => {
                return Err(e);
            },
            Ok(mode) => mode,
        },
    };
    let planned = cursor_for_status(rrule.as_str(), cursor, req.status, at, offset_of, reading_of);
    assert(cursor_after_status(
        zone,
        rule_after(old, req),
        cursor,
        req.status,
        at,
        in_words(planned),
    ));
    let next_run_at = match planned {
        Err(e) => {
            return Err(e);
        },
        Ok(next) => next,
    };
    Ok(
        AutomationRecord {
            schema_version: old.schema_version,
            id: old.id,
            name: match &req.name {
                Some(name) => trim(name.as_str()),
                None => old.name,
            },
            prompt: match &req.prompt {
                Some(prompt) => trim(prompt.as_str()),
                None => old.prompt,
            },
            rrule,
            cwds: match req.cwds {
                Some(cwds) => cwds,
                None => old.cwds,
            },
            model: match req.model {
                Some(model) => normalize_optional_string(Some(model)),
                None => old.model,
            },
            mode,
            allow_shell: if req.allow_shell.is_some() {
                req.allow_shell
            } else {
                old.allow_shell
            },
            trust_mode: if req.trust_mode.is_some() {
                req.trust_mode
            } else {
                old.trust_mode
            },
            auto_approve: if req.auto_approve.is_some() {
                req.auto_approve
            } else {
                old.auto_approve
            },
            status: match req.status {
                Some(status) => status,
                None => old.status,
            },
            created_at: old.created_at,
            updated_at: at,
            next_run_at,
            last_run_at: old.last_run_at,
        },
    )
}

proof fn lemma_update_within(
    small: Zone,
    large: Zone,
    old: AutomationRecord,
    req: UpdateAutomationRequest,
    now: Timestamp,
    r: Result<AutomationRecord, Failure>,
)
    requires
        zone_within(small, large),
        update(small, old, req, now, r),
    ensures
        update(large, old, req, now, r),
{
    if !(req.name matches Some(name) && is_blank(name@)) && !(req.prompt matches Some(prompt)
        && is_blank(prompt@)) {
        let cursor = choose|cursor: Result<Option<Timestamp>, Seq<char>>| #[trigger]
            cursor_after_rule(small, old, text_opt(req.rrule), now, cursor) && match cursor {
                Err(words) => r matches Err(e) && e@ == words,
                Ok(cursor) => match mode_fault(requested_mode(text_opt(req.mode))) {
                    Some(words) => r matches Err(e) && e@ == words,
                    None => exists|next: Result<Option<Timestamp>, Seq<char>>| #[trigger]
                        cursor_after_status(
                            small,
                            rule_after(old, req),
                            cursor,
                            req.status,
                            now,
                            next,
                        ) && match next {
                            Err(words) => r matches Err(e) && e@ == words,
                            Ok(next) => r matches Ok(record) && is_changed_record(
                                old,
                                req,
                                now,
                                next,
                                record,
                            ),
                        },
                },
            };
        lemma_cursor_after_rule_within(small, large, old, text_opt(req.rrule), now, cursor);
        if let Ok(moved) = cursor {
            if mode_fault(requested_mode(text_opt(req.mode))) is None {
                let rule = rule_after(old, req);
                let next = choose|next: Result<Option<Timestamp>, Seq<char>>| #[trigger]
                    cursor_after_status(small, rule, moved, req.status, now, next) && match next {
                        Err(words) => r matches Err(e) && e@ == words,
                        Ok(next) => r matches Ok(record) && is_changed_record(
                            old,
                            req,
                            now,
                            next,
                            record,
                        ),
                    };
                if req.status == Some(AutomationStatus::Active) {
                    let slot = choose|slot: Result<Timestamp, Seq<char>>| #[trigger]
                        planned_slot(small, rule, now, slot) && next == as_cursor(slot);
                    let parsed = choose|parsed: Result<AutomationSchedule, ScheduleError>| #[trigger]
                        rrule_meaning(rule, parsed) && match parsed {
                            Err(e) => slot == Err::<Timestamp, _>(e.text()),
                            Ok(schedule) => slot_in_words(small, schedule, now, slot),
                        };
                    if let Ok(schedule) = parsed {
                        lemma_slot_in_words_within(small, large, schedule, now, slot);
                    }
                    assert(planned_slot(large, rule, now, slot));
                }
                assert(cursor_after_status(large, rule, moved, req.status, now, next));
            }
        }
    }
}

proof fn lemma_cursor_after_rule_within(
    small: Zone,
    large: Zone,
    record: AutomationRecord,
    rrule: Option<Seq<char>>,
    now: Timestamp,
    out: Result<Option<Timestamp>, Seq<char>>,
)
    requires
        zone_within(small, large),
        cursor_after_rule(small, record, rrule, now, out),
    ensures
        cursor_after_rule(large, record, rrule, now, out),
{
    if let Some(raw) = rrule {
        let rule = stored_rule(raw);
        let parsed = choose|parsed: Result<AutomationSchedule, ScheduleError>| #[trigger]
            rrule_meaning(rule, parsed) && match parsed {
                Err(e) => out == Err::<Option<Timestamp>, _>(e.text()),
                Ok(schedule) => if record.status is Paused {
                    out == Ok::<_, Seq<char>>(record.next_run_at)
                } else {
                    exists|slot: Result<Timestamp, Seq<char>>| #[trigger]
                        slot_in_words(small, schedule, now, slot) && out == as_cursor(slot)
                },
            };
        if let Ok(schedule) = parsed {
            if record.status is Active {
                let slot = choose|slot: Result<Timestamp, Seq<char>>| #[trigger]
                    slot_in_words(small, schedule, now, slot) && out == as_cursor(slot);
                lemma_slot_in_words_within(small, large, schedule, now, slot);
            }
        }
    }
}

/// The record that a request leaves of an automation, changed now, in the machine's
/// time zone.
pub fn update_automation(old: AutomationRecord, req: UpdateAutomationRequest) -> (r: Result<
    AutomationRecord,
    Failure,
>)
    ensures
        exists|at: Timestamp| at.wf() && #[trigger] update(any_zone(), old, req, at, r),
{
    let at = now();
    let r = update_automation_with(old, req, at, &local_offset, &local_time);
    proof {
        let zone = zone_of(local_offset, local_time);
        assert(zone_within(zone, any_zone()));
        lemma_update_within(zone, any_zone(), old, req, at, r);
    }
    r
}

// Listing --------------------------------------------------------------------
/// The order of a listing: what changed last comes first.
pub open spec fn changed_later() -> spec_fn(AutomationRecord, AutomationRecord) -> bool {
    |a: AutomationRecord, b: AutomationRecord| b.updated_at.before(a.updated_at)
}

/// Sorts automations so that what changed last comes first.
pub fn sort_automations(list: Vec<AutomationRecord>) -> (r: Vec<AutomationRecord>)
    ensures
        is_sorted_from(list@, r@, changed_later()),
{
    let less = |a: &AutomationRecord, b: &AutomationRecord| -> (x: bool)
        ensures
            x == b.updated_at.before(a.updated_at),
        { b.updated_at.is_before(&a.updated_at) };
    sort_stable(list, less, Ghost(changed_later()))
}

/// The later of a time and the time that is already known.
pub open spec fn later_of(known: Option<Timestamp>, t: Timestamp) -> Timestamp {
    match known {
        Some(k) => if k.before(t) {
            t
        } else {
            k
        },
        None => t,
    }
}

/// The later of a time and the time that is already known.
pub fn max_time(known: Option<Timestamp>, t: Timestamp) -> (r: Timestamp)
    ensures
        r == later_of(known, t),
{
    match known {
        Some(k) => if k.is_before(&t) {
            t
        } else {
            k
        },
        None => t,
    }
}

/// Moves the time of an automation's last run on to `candidate`, never back.
pub fn advance_last_run_at(automation: &mut AutomationRecord, candidate: Option<Timestamp>)
    ensures
        *final(automation) == (AutomationRecord {
            last_run_at: match candidate {
                Some(t) => Some(later_of(old(automation).last_run_at, t)),
                None => old(automation).last_run_at,
            },
            ..*old(automation)
        }),
{
    if let Some(t) = candidate {
        automation.last_run_at = Some(max_time(automation.last_run_at, t));
    }
}

} // verus!
