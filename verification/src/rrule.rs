//! The recurrence rules that an automation may carry.
//!
//! A rule is a list of `KEY=VALUE` segments separated by semicolons. Keys and
//! values are read without regard to case or surrounding white space, and the
//! last value of a repeated key counts.
use vstd::prelude::*;
use vstd::string::*;

use crate::text::{
    copy_text, first_index, join3, lex_less, lex_less_is_a_strict_order, parse_u32, parsed_u32,
    same_text, split, split_on, split_once, text_less, texts, to_upper, trim, trimmed, upper,
};
use crate::time::Weekday;

verus! {

/// How often an automation runs.
#[derive(Debug, Clone)]
pub enum AutomationSchedule {
    Minutely { interval_minutes: u32 },
    Hourly { interval_hours: u32, byday: Option<Vec<Weekday>> },
    Weekly { byday: Vec<Weekday>, byhour: u32, byminute: u32 },
}

#[derive(Debug, Clone, Copy, PartialEq, Eq, Structural)]
pub enum AutomationFrequency {
    Minutely,
    Hourly,
    Weekly,
}

/// A rule's numeric fields and its list of days.
#[derive(Debug, Clone, Copy, PartialEq, Eq, Structural)]
pub enum RruleField {
    Interval,
    Byday,
    Byhour,
    Byminute,
}

/// Why a rule was refused, or why a schedule has no slot to offer.
#[derive(Debug, Clone)]
pub enum ScheduleError {
    /// A segment without an equals sign.
    InvalidSegment(String),
    MissingFreq,
    UnsupportedFreq(String),
    UnsupportedField { key: String, freq: AutomationFrequency },
    /// A field that is no 32-bit number.
    InvalidNumber(RruleField),
    ZeroInterval(AutomationFrequency),
    InvalidByday(String),
    MissingField(RruleField),
    ByhourRange,
    ByminuteRange,
    NoHourlySlot,
    NoWeeklySlot,
    NoHourlyFastForward,
    /// The slot would lie outside the supported calendar.
    OutOfRange,
}

impl RruleField {
    pub open spec fn name_spec(self) -> Seq<char> {
        match self {
            RruleField::Interval => "INTERVAL"@,
            RruleField::Byday => "BYDAY"@,
            RruleField::Byhour => "BYHOUR"@,
            RruleField::Byminute => "BYMINUTE"@,
        }
    }

    /// The field's key in a rule.
    pub fn name(self) -> (r: &'static str)
        ensures
            r@ == self.name_spec(),
    {
        match self {
            RruleField::Interval => "INTERVAL",
            RruleField::Byday => "BYDAY",
            RruleField::Byhour => "BYHOUR",
            RruleField::Byminute => "BYMINUTE",
        }
    }
}

impl AutomationFrequency {
    pub open spec fn name_spec(self) -> Seq<char> {
        match self {
            AutomationFrequency::Minutely => "MINUTELY"@,
            AutomationFrequency::Hourly => "HOURLY"@,
            AutomationFrequency::Weekly => "WEEKLY"@,
        }
    }

    /// The frequency's name in a rule.
    pub fn name(self) -> (r: &'static str)
        ensures
            r@ == self.name_spec(),
    {
        match self {
            AutomationFrequency::Minutely => "MINUTELY",
            AutomationFrequency::Hourly => "HOURLY",
            AutomationFrequency::Weekly => "WEEKLY",
        }
    }

    pub open spec fn allowed_spec(self) -> Seq<char> {
        match self {
            AutomationFrequency::Minutely => "FREQ,INTERVAL"@,
            AutomationFrequency::Hourly => "FREQ,INTERVAL,BYDAY"@,
            AutomationFrequency::Weekly => "FREQ,BYDAY,BYHOUR,BYMINUTE"@,
        }
    }

    fn allowed(self) -> (r: &'static str)
        ensures
            r@ == self.allowed_spec(),
    {
        match self {
            AutomationFrequency::Minutely => "FREQ,INTERVAL",
            AutomationFrequency::Hourly => "FREQ,INTERVAL,BYDAY",
            AutomationFrequency::Weekly => "FREQ,BYDAY,BYHOUR,BYMINUTE",
        }
    }

    /// Whether a rule of this frequency may hold `key`.
    pub open spec fn allows(self, key: Seq<char>) -> bool {
        match self {
            AutomationFrequency::Minutely => key == "FREQ"@ || key == "INTERVAL"@,
            AutomationFrequency::Hourly => key == "FREQ"@ || key == "INTERVAL"@ || key == "BYDAY"@,
            AutomationFrequency::Weekly => key == "FREQ"@ || key == "BYDAY"@ || key == "BYHOUR"@
                || key == "BYMINUTE"@,
        }
    }

    fn allows_key(self, key: &str) -> (r: bool)
        ensures
            r == self.allows(key@),
    {
        match self {
            AutomationFrequency::Minutely => same_text(key, "FREQ") || same_text(key, "INTERVAL"),
            AutomationFrequency::Hourly => same_text(key, "FREQ") || same_text(key, "INTERVAL")
                || same_text(key, "BYDAY"),
            AutomationFrequency::Weekly => same_text(key, "FREQ") || same_text(key, "BYDAY")
                || same_text(key, "BYHOUR") || same_text(key, "BYMINUTE"),
        }
    }
}

impl ScheduleError {
    /// The words that [`ScheduleError::message`] gives.
    pub open spec fn text(self) -> Seq<char> {
        match self {
            ScheduleError::InvalidSegment(item) => "Invalid RRULE segment '"@ + item@ + "'"@,
            ScheduleError::MissingFreq => "RRULE must include FREQ"@,
            ScheduleError::UnsupportedFreq(other) => "Unsupported RRULE FREQ '"@ + other@
                + "'. Supported: MINUTELY, HOURLY and WEEKLY"@,
            ScheduleError::UnsupportedField { key, freq } => "Unsupported RRULE field '"@ + key@
                + "' for "@ + freq.name_spec() + ". Allowed: "@ + freq.allowed_spec(),
            ScheduleError::InvalidNumber(field) => "Failed to parse "@ + field.name_spec(),
            ScheduleError::ZeroInterval(freq) => "INTERVAL must be >= 1 for "@ + freq.name_spec()
                + " schedules"@,
            ScheduleError::InvalidByday(other) => "Invalid BYDAY value '"@ + other@ + "'"@,
            ScheduleError::MissingField(field) => "WEEKLY schedules require "@ + field.name_spec(),
            ScheduleError::ByhourRange => "BYHOUR must be between 0 and 23"@,
            ScheduleError::ByminuteRange => "BYMINUTE must be between 0 and 59"@,
            ScheduleError::NoHourlySlot => "Unable to compute next HOURLY run for BYDAY filter"@,
            ScheduleError::NoWeeklySlot => "Unable to compute next WEEKLY run"@,
            ScheduleError::NoHourlyFastForward =>
                "Unable to fast-forward HOURLY run for BYDAY filter"@,
            ScheduleError::OutOfRange => "Schedule slot is outside the supported calendar"@,
        }
    }

    /// The error in words.
    pub fn message(&self) -> (r: String)
        ensures
            r@ == self.text(),
    {
        match self {
            ScheduleError::InvalidSegment(item) => join3("Invalid RRULE segment '", item.as_str(), "'"),
            ScheduleError::MissingFreq => copy_text("RRULE must include FREQ"),
            ScheduleError::UnsupportedFreq(other) => join3(
                "Unsupported RRULE FREQ '",
                other.as_str(),
                "'. Supported: MINUTELY, HOURLY and WEEKLY",
            ),
            ScheduleError::UnsupportedField { key, freq } => {
                let mut out = join3("Unsupported RRULE field '", key.as_str(), "' for ");
                out.append(freq.name());
                out.append(". Allowed: ");
                out.append(freq.allowed());
                out
            },
            ScheduleError::InvalidNumber(field) => {
                let mut out = copy_text("Failed to parse ");
                out.append(field.name());
                out
            },
            ScheduleError::ZeroInterval(freq) => join3(
                "INTERVAL must be >= 1 for ",
                freq.name(),
                " schedules",
            ),
            ScheduleError::InvalidByday(other) => join3("Invalid BYDAY value '", other.as_str(), "'"),
            ScheduleError::MissingField(field) => {
                let mut out = copy_text("WEEKLY schedules require ");
                out.append(field.name());
                out
            },
            ScheduleError::ByhourRange => copy_text("BYHOUR must be between 0 and 23"),
            ScheduleError::ByminuteRange => copy_text("BYMINUTE must be between 0 and 59"),
            ScheduleError::NoHourlySlot => copy_text(
                "Unable to compute next HOURLY run for BYDAY filter",
            ),
            ScheduleError::NoWeeklySlot => copy_text("Unable to compute next WEEKLY run"),
            ScheduleError::NoHourlyFastForward => copy_text(
                "Unable to fast-forward HOURLY run for BYDAY filter",
            ),
            ScheduleError::OutOfRange => copy_text("Schedule slot is outside the supported calendar"),
        }
    }
}

/// The fields that a rule's segments spell, or the first segment that has no
/// equals sign. Empty segments count for nothing; a later value of a key takes
/// the place of an earlier one.
pub open spec fn rrule_fields(segments: Seq<Seq<char>>) -> Result<Map<Seq<char>, Seq<char>>, Seq<char>>
    decreases segments.len(),
{
    if segments.len() == 0 {
        Ok(Map::empty())
    } else {
        match rrule_fields(segments.drop_last()) {
            Err(item) => Err(item),
            Ok(fields) => {
                let item = trimmed(segments.last());
                let eq = first_index(item, '=');
                if item.len() == 0 {
                    Ok(fields)
                } else if eq >= item.len() {
                    Err(item)
                } else {
                    Ok(fields.insert(
                        upper(trimmed(item.take(eq))),
                        upper(trimmed(item.skip(eq + 1))),
                    ))
                }
            },
        }
    }
}

/// The day that a two-letter code stands for.
pub open spec fn day_code(code: Seq<char>) -> Option<Weekday> {
    if code == "MO"@ {
        Some(Weekday::Mon)
    } else if code == "TU"@ {
        Some(Weekday::Tue)
    } else if code == "WE"@ {
        Some(Weekday::Wed)
    } else if code == "TH"@ {
        Some(Weekday::Thu)
    } else if code == "FR"@ {
        Some(Weekday::Fri)
    } else if code == "SA"@ {
        Some(Weekday::Sat)
    } else if code == "SU"@ {
        Some(Weekday::Sun)
    } else {
        None
    }
}

/// The days that a list of codes names, each once and in the order of their
/// first mention, or the first code that names no day.
pub open spec fn byday_days(tokens: Seq<Seq<char>>) -> Result<Seq<Weekday>, Seq<char>>
    decreases tokens.len(),
{
    if tokens.len() == 0 {
        Ok(Seq::empty())
    } else {
        match byday_days(tokens.drop_last()) {
            Err(code) => Err(code),
            Ok(days) => {
                let code = upper(trimmed(tokens.last()));
                match day_code(code) {
                    None => Err(code),
                    Some(day) => if days.contains(day) {
                        Ok(days)
                    } else {
                        Ok(days.push(day))
                    },
                }
            },
        }
    }
}

/// What [`parse_byday`] makes of `value`.
pub open spec fn byday_meaning(value: Seq<char>) -> Result<Seq<Weekday>, Seq<char>> {
    byday_days(split_on(value, ','))
}

/// Whether `key` is the first field, in the order of keys, that a rule of
/// frequency `freq` may not hold.
pub open spec fn is_first_unsupported(
    fields: Map<Seq<char>, Seq<char>>,
    freq: AutomationFrequency,
    key: Seq<char>,
) -> bool {
    &&& fields.contains_key(key)
    &&& !freq.allows(key)
    &&& forall|k: Seq<char>|
        #[trigger] fields.contains_key(k) && !freq.allows(k) ==> k == key || lex_less(key, k)
}

/// Whether every field of a rule is one that its frequency allows.
pub open spec fn all_supported(fields: Map<Seq<char>, Seq<char>>, freq: AutomationFrequency) -> bool {
    forall|k: Seq<char>| #[trigger] fields.contains_key(k) ==> freq.allows(k)
}

/// The interval that a rule asks for: 1 where it names none, and nothing where
/// the field is no 32-bit number.
pub open spec fn interval_of(fields: Map<Seq<char>, Seq<char>>) -> Option<u32> {
    if fields.contains_key("INTERVAL"@) {
        parsed_u32(fields["INTERVAL"@])
    } else {
        Some(1)
    }
}

/// What a minutely rule's fields make of the rule.
pub open spec fn minutely_meaning(
    fields: Map<Seq<char>, Seq<char>>,
    r: Result<AutomationSchedule, ScheduleError>,
) -> bool {
    match interval_of(fields) {
        None => r == Err::<AutomationSchedule, _>(ScheduleError::InvalidNumber(RruleField::Interval)),
        Some(n) => if n == 0 {
            r == Err::<AutomationSchedule, _>(
                ScheduleError::ZeroInterval(AutomationFrequency::Minutely),
            )
        } else {
            r == Ok::<_, ScheduleError>(AutomationSchedule::Minutely { interval_minutes: n })
        },
    }
}

/// What an hourly rule's fields make of the rule.
pub open spec fn hourly_meaning(
    fields: Map<Seq<char>, Seq<char>>,
    r: Result<AutomationSchedule, ScheduleError>,
) -> bool {
    match interval_of(fields) {
        None => r == Err::<AutomationSchedule, _>(ScheduleError::InvalidNumber(RruleField::Interval)),
        Some(n) => if n == 0 {
            r == Err::<AutomationSchedule, _>(ScheduleError::ZeroInterval(AutomationFrequency::Hourly))
        } else if !fields.contains_key("BYDAY"@) {
            r == Ok::<_, ScheduleError>(AutomationSchedule::Hourly { interval_hours: n, byday: None })
        } else {
            match byday_meaning(fields["BYDAY"@]) {
                Err(code) => r matches Err(ScheduleError::InvalidByday(t)) && t@ == code,
                Ok(days) => r matches Ok(AutomationSchedule::Hourly { interval_hours, byday: Some(v) })
                    && interval_hours == n && v@ == days,
            }
        },
    }
}

/// What a weekly rule's fields make of the rule.
pub open spec fn weekly_meaning(
    fields: Map<Seq<char>, Seq<char>>,
    r: Result<AutomationSchedule, ScheduleError>,
) -> bool {
    if !fields.contains_key("BYDAY"@) {
        r == Err::<AutomationSchedule, _>(ScheduleError::MissingField(RruleField::Byday))
    } else {
        match byday_meaning(fields["BYDAY"@]) {
            Err(code) => r matches Err(ScheduleError::InvalidByday(t)) && t@ == code,
            Ok(days) => if !fields.contains_key("BYHOUR"@) {
                r == Err::<AutomationSchedule, _>(ScheduleError::MissingField(RruleField::Byhour))
            } else {
                match parsed_u32(fields["BYHOUR"@]) {
                    None => r == Err::<AutomationSchedule, _>(
                        ScheduleError::InvalidNumber(RruleField::Byhour),
                    ),
                    Some(hour) => if !fields.contains_key("BYMINUTE"@) {
                        r == Err::<AutomationSchedule, _>(
                            ScheduleError::MissingField(RruleField::Byminute),
                        )
                    } else {
                        match parsed_u32(fields["BYMINUTE"@]) {
                            None => r == Err::<AutomationSchedule, _>(
                                ScheduleError::InvalidNumber(RruleField::Byminute),
                            ),
                            Some(minute) => if hour > 23 {
                                r == Err::<AutomationSchedule, _>(ScheduleError::ByhourRange)
                            } else if minute > 59 {
                                r == Err::<AutomationSchedule, _>(ScheduleError::ByminuteRange)
                            } else {
                                r matches Ok(AutomationSchedule::Weekly { byday, byhour, byminute })
                                    && byday@ == days && byhour == hour && byminute == minute
                            },
                        }
                    },
                }
            },
        }
    }
}

/// What the fields of a rule with frequency `freq` make of it.
pub open spec fn fields_meaning(
    fields: Map<Seq<char>, Seq<char>>,
    freq: AutomationFrequency,
    r: Result<AutomationSchedule, ScheduleError>,
) -> bool {
    if !all_supported(fields, freq) {
        r matches Err(ScheduleError::UnsupportedField { key, freq: f }) && f == freq
            && is_first_unsupported(fields, freq, key@)
    } else {
        match freq {
            AutomationFrequency::Minutely => minutely_meaning(fields, r),
            AutomationFrequency::Hourly => hourly_meaning(fields, r),
            AutomationFrequency::Weekly => weekly_meaning(fields, r),
        }
    }
}

/// What [`AutomationSchedule::parse_rrule`] makes of a rule.
pub open spec fn rrule_meaning(
    rrule: Seq<char>,
    r: Result<AutomationSchedule, ScheduleError>,
) -> bool {
    match rrule_fields(split_on(rrule, ';')) {
        Err(item) => r matches Err(ScheduleError::InvalidSegment(t)) && t@ == item,
        Ok(fields) => if !fields.contains_key("FREQ"@) {
            r == Err::<AutomationSchedule, _>(ScheduleError::MissingFreq)
        } else if fields["FREQ"@] == "MINUTELY"@ {
            fields_meaning(fields, AutomationFrequency::Minutely, r)
        } else if fields["FREQ"@] == "HOURLY"@ {
            fields_meaning(fields, AutomationFrequency::Hourly, r)
        } else if fields["FREQ"@] == "WEEKLY"@ {
            fields_meaning(fields, AutomationFrequency::Weekly, r)
        } else {
            r matches Err(ScheduleError::UnsupportedFreq(t)) && t@ == fields["FREQ"@]
        },
    }
}

/// A list of fields, each key once.
struct Fields {
    items: Vec<(String, String)>,
}

impl Fields {
    spec fn keys_distinct(self) -> bool {
        forall|i: int, j: int|
            0 <= i < j < self.items@.len() ==> (#[trigger] self.items@[i]).0@ != (
            #[trigger] self.items@[j]).0@
    }

    /// The list stands for `fields`.
    spec fn is(self, fields: Map<Seq<char>, Seq<char>>) -> bool {
        &&& self.keys_distinct()
        &&& forall|i: int|
            0 <= i < self.items@.len() ==> fields.contains_key((#[trigger] self.items@[i]).0@)
                && fields[self.items@[i].0@] == self.items@[i].1@
        &&& forall|k: Seq<char>| #[trigger]
            fields.contains_key(k) ==> exists|i: int|
                0 <= i < self.items@.len() && (#[trigger] self.items@[i]).0@ == k
    }

    fn set(&mut self, key: String, value: String, Ghost(fields): Ghost<Map<Seq<char>, Seq<char>>>)
        requires
            old(self).is(fields),
        ensures
            final(self).is(fields.insert(key@, value@)),
    {
        let ghost before = self.items@;
        let mut i: usize = 0;
        while i < self.items.len()
            invariant
                i <= self.items@.len(),
                self.items@ == before,
                self.is(fields),
                forall|j: int| 0 <= j < i ==> (#[trigger] self.items@[j]).0@ != key@,
            decreases self.items@.len() - i,
        {
            if same_text(self.items[i].0.as_str(), key.as_str()) {
                let ghost k = key@;
                let ghost v = value@;
                self.items.set(i, (key, value));
                proof {
                    let m = fields.insert(k, v);
                    assert forall|x: Seq<char>| #[trigger] m.contains_key(x) implies exists|j: int|
                        0 <= j < self.items@.len() && (#[trigger] self.items@[j]).0@ == x by {
                        if x == k {
                            assert(self.items@[i as int].0@ == x);
                        } else {
                            assert(fields.contains_key(x));
                            let j = choose|j: int|
                                0 <= j < before.len() && (#[trigger] before[j]).0@ == x;
                            assert(self.items@[j].0@ == x);
                        }
                    }
                    assert forall|j: int| 0 <= j < self.items@.len() implies m.contains_key(
                        (#[trigger] self.items@[j]).0@,
                    ) && m[self.items@[j].0@] == self.items@[j].1@ by {
                        if j != i {
                            assert(self.items@[j] == before[j]);
                            assert(before[j].0@ != before[i as int].0@);
                        }
                    }
                    assert forall|a: int, b: int| 0 <= a < b < self.items@.len() implies (
                    #[trigger] self.items@[a]).0@ != (#[trigger] self.items@[b]).0@ by {
                        assert(before[a].0@ != before[b].0@);
                    }
                }
                return ;
            }
            i += 1;
        }
        let ghost k = key@;
        let ghost v = value@;
        self.items.push((key, value));
        proof {
            let m = fields.insert(k, v);
            let n = before.len() as int;
            assert forall|x: Seq<char>| #[trigger] m.contains_key(x) implies exists|j: int|
                0 <= j < self.items@.len() && (#[trigger] self.items@[j]).0@ == x by {
                if x == k {
                    assert(self.items@[n].0@ == x);
                } else {
                    assert(fields.contains_key(x));
                    let j = choose|j: int| 0 <= j < before.len() && (#[trigger] before[j]).0@ == x;
                    assert(self.items@[j].0@ == x);
                }
            }
            assert forall|j: int| 0 <= j < self.items@.len() implies m.contains_key(
                (#[trigger] self.items@[j]).0@,
            ) && m[self.items@[j].0@] == self.items@[j].1@ by {
                if j < n {
                    assert(self.items@[j] == before[j]);
                    assert(before[j].0@ != k);
                }
            }
        }
    }

    fn get(&self, key: &str, Ghost(fields): Ghost<Map<Seq<char>, Seq<char>>>) -> (r: Option<&String>)
        requires
            self.is(fields),
        ensures
            match r {
                Some(v) => fields.contains_key(key@) && v@ == fields[key@],
                None => !fields.contains_key(key@),
            },
    {
        let mut i: usize = 0;
        while i < self.items.len()
            invariant
                i <= self.items@.len(),
                self.is(fields),
                forall|j: int| 0 <= j < i ==> (#[trigger] self.items@[j]).0@ != key@,
            decreases self.items@.len() - i,
        {
            if same_text(self.items[i].0.as_str(), key) {
                return Some(&self.items[i].1);
            }
            i += 1;
        }
        None
    }

    fn first_unsupported(
        &self,
        freq: AutomationFrequency,
        Ghost(fields): Ghost<Map<Seq<char>, Seq<char>>>,
    ) -> (r: Option<String>)
        requires
            self.is(fields),
        ensures
            match r {
                Some(key) => is_first_unsupported(fields, freq, key@),
                None => all_supported(fields, freq),
            },
    {
        let mut best: Option<usize> = None;
        let mut i: usize = 0;
        while i < self.items.len()
            invariant
                i <= self.items@.len(),
                self.is(fields),
                match best {
                    None => forall|j: int|
                        0 <= j < i ==> freq.allows((#[trigger] self.items@[j]).0@),
                    Some(b) => b < i && !freq.allows(self.items@[b as int].0@) && forall|j: int|
                        0 <= j < i && !freq.allows((#[trigger] self.items@[j]).0@) ==> j == b
                            || lex_less(self.items@[b as int].0@, self.items@[j].0@),
                },
            decreases self.items@.len() - i,
        {
            if !freq.allows_key(self.items[i].0.as_str()) {
                match best {
                    None => {
                        best = Some(i);
                    },
                    Some(b) => {
                        let ghost kb = self.items@[b as int].0@;
                        let ghost ki = self.items@[i as int].0@;
                        if text_less(self.items[i].0.as_str(), self.items[b].0.as_str()) {
                            proof {
                                assert forall|j: int|
                                    0 <= j < i + 1 && !freq.allows(
                                        (#[trigger] self.items@[j]).0@,
                                    ) implies j == i || lex_less(ki, self.items@[j].0@) by {
                                    lex_less_is_a_strict_order(ki, kb, self.items@[j].0@);
                                }
                            }
                            best = Some(i);
                        } else {
                            proof {
                                lex_less_is_a_strict_order(kb, ki, ki);
                            }
                        }
                    },
                }
            }
            i += 1;
        }
        match best {
            None => {
                proof {
                    assert forall|k: Seq<char>| #[trigger]
                        fields.contains_key(k) implies freq.allows(k) by {
                        let j = choose|j: int|
                            0 <= j < self.items@.len() && (#[trigger] self.items@[j]).0@ == k;
                        assert(freq.allows(self.items@[j].0@));
                    }
                }
                None
            },
            Some(b) => {
                proof {
                    let key = self.items@[b as int].0@;
                    assert forall|k: Seq<char>| #[trigger]
                        fields.contains_key(k) && !freq.allows(k) implies k == key || lex_less(
                        key,
                        k,
                    ) by {
                        let j = choose|j: int|
                            0 <= j < self.items@.len() && (#[trigger] self.items@[j]).0@ == k;
                        assert(!freq.allows(self.items@[j].0@));
                    }
                }
                Some(copy_text(self.items[b].0.as_str()))
            },
        }
    }
}

proof fn lemma_fields_error_persists(segments: Seq<Seq<char>>, n: int)
    requires
        0 <= n <= segments.len(),
        rrule_fields(segments.take(n)) is Err,
    ensures
        rrule_fields(segments) == rrule_fields(segments.take(n)),
    decreases segments.len(),
{
    if n == segments.len() {
        assert(segments.take(n) =~= segments);
    } else {
        assert(segments.drop_last().take(n) =~= segments.take(n));
        lemma_fields_error_persists(segments.drop_last(), n);
    }
}

fn read_fields(rrule: &str) -> (r: Result<Fields, String>)
    ensures
        match r {
            Ok(fields) => rrule_fields(split_on(rrule@, ';')) matches Ok(m) && fields.is(m),
            Err(item) => rrule_fields(split_on(rrule@, ';')) == Err::<
                Map<Seq<char>, Seq<char>>,
                Seq<char>,
            >(item@),
        },
{
    let segments = split(rrule, ';');
    let ghost all = texts(segments@);
    let ghost mut map: Map<Seq<char>, Seq<char>> = Map::empty();
    let mut fields = Fields { items: Vec::new() };
    let mut i: usize = 0;
    assert(all.take(0) =~= Seq::empty());
    while i < segments.len()
        invariant
            i <= segments@.len(),
            all == texts(segments@),
            all == split_on(rrule@, ';'),
            rrule_fields(all.take(i as int)) == Ok::<Map<Seq<char>, Seq<char>>, Seq<char>>(map),
            fields.is(map),
        decreases segments@.len() - i,
    {
        let item = trim(segments[i].as_str());
        proof {
            assert(all.take(i + 1).drop_last() =~= all.take(i as int));
            assert(all.take(i + 1).last() == segments@[i as int]@);
        }
        if item.as_str().unicode_len() > 0 {
            match split_once(item.as_str(), '=') {
                None => {
                    proof {
                        lemma_fields_error_persists(all, i + 1);
                    }
                    return Err(item);
                },
                Some((k, v)) => {
                    let key = to_upper(trim(k.as_str()).as_str());
                    let value = to_upper(trim(v.as_str()).as_str());
                    let ghost next = map.insert(key@, value@);
                    fields.set(key, value, Ghost(map));
                    proof {
                        map = next;
                    }
                },
            }
        }
        i += 1;
    }
    assert(all.take(all.len() as int) =~= all);
    Ok(fields)
}

proof fn lemma_byday_error_persists(tokens: Seq<Seq<char>>, n: int)
    requires
        0 <= n <= tokens.len(),
        byday_days(tokens.take(n)) is Err,
    ensures
        byday_days(tokens) == byday_days(tokens.take(n)),
    decreases tokens.len(),
{
    if n == tokens.len() {
        assert(tokens.take(n) =~= tokens);
    } else {
        assert(tokens.drop_last().take(n) =~= tokens.take(n));
        lemma_byday_error_persists(tokens.drop_last(), n);
    }
}

fn read_day(code: &str) -> (r: Option<Weekday>)
    ensures
        r == day_code(code@),
{
    if same_text(code, "MO") {
        Some(Weekday::Mon)
    } else if same_text(code, "TU") {
        Some(Weekday::Tue)
    } else if same_text(code, "WE") {
        Some(Weekday::Wed)
    } else if same_text(code, "TH") {
        Some(Weekday::Thu)
    } else if same_text(code, "FR") {
        Some(Weekday::Fri)
    } else if same_text(code, "SA") {
        Some(Weekday::Sat)
    } else if same_text(code, "SU") {
        Some(Weekday::Sun)
    } else {
        None
    }
}

/// Whether `day` is one of `days`.
pub fn has_day(days: &Vec<Weekday>, day: Weekday) -> (r: bool)
    ensures
        r == days@.contains(day),
{
    let mut i: usize = 0;
    while i < days.len()
        invariant
            i <= days@.len(),
            forall|k: int| 0 <= k < i ==> days@[k] != day,
        decreases days@.len() - i,
    {
        if days[i] == day {
            return true;
        }
        i += 1;
    }
    false
}

/// Reads a comma-separated list of two-letter days.
pub fn parse_byday(value: &str) -> (r: Result<Vec<Weekday>, ScheduleError>)
    ensures
        match byday_meaning(value@) {
            Ok(days) => r matches Ok(v) && v@ == days,
            Err(code) => r matches Err(ScheduleError::InvalidByday(t)) && t@ == code,
        },
{
    let tokens = split(value, ',');
    let ghost all = texts(tokens@);
    let mut days: Vec<Weekday> = Vec::new();
    let mut i: usize = 0;
    assert(all.take(0) =~= Seq::empty());
    while i < tokens.len()
        invariant
            i <= tokens@.len(),
            all == texts(tokens@),
            all == split_on(value@, ','),
            byday_days(all.take(i as int)) == Ok::<Seq<Weekday>, Seq<char>>(days@),
        decreases tokens@.len() - i,
    {
        let code = to_upper(trim(tokens[i].as_str()).as_str());
        proof {
            assert(all.take(i + 1).drop_last() =~= all.take(i as int));
            assert(all.take(i + 1).last() == tokens@[i as int]@);
        }
        match read_day(code.as_str()) {
            None => {
                proof {
                    lemma_byday_error_persists(all, i + 1);
                }
                return Err(ScheduleError::InvalidByday(code));
            },
            Some(day) => {
                if !has_day(&days, day) {
                    days.push(day);
                }
            },
        }
        i += 1;
    }
    assert(all.take(all.len() as int) =~= all);
    Ok(days)
}

fn read_interval(fields: &Fields, Ghost(map): Ghost<Map<Seq<char>, Seq<char>>>) -> (r: Option<u32>)
    requires
        fields.is(map),
    ensures
        r == interval_of(map),
{
    match fields.get("INTERVAL", Ghost(map)) {
        None => Some(1),
        Some(v) => parse_u32(v.as_str()),
    }
}

fn read_minutely(fields: &Fields, Ghost(map): Ghost<Map<Seq<char>, Seq<char>>>) -> (r: Result<
    AutomationSchedule,
    ScheduleError,
>)
    requires
        fields.is(map),
    ensures
        minutely_meaning(map, r),
{
    match read_interval(fields, Ghost(map)) {
        None => Err(ScheduleError::InvalidNumber(RruleField::Interval)),
        Some(n) => if n == 0 {
            Err(ScheduleError::ZeroInterval(AutomationFrequency::Minutely))
        } else {
            Ok(AutomationSchedule::Minutely { interval_minutes: n })
        },
    }
}

fn read_hourly(fields: &Fields, Ghost(map): Ghost<Map<Seq<char>, Seq<char>>>) -> (r: Result<
    AutomationSchedule,
    ScheduleError,
>)
    requires
        fields.is(map),
    ensures
        hourly_meaning(map, r),
{
    let interval_hours: u32 = match read_interval(fields, Ghost(map)) {
        None => {
            return Err(ScheduleError::InvalidNumber(RruleField::Interval));
        },
        Some(n) => n,
    };
    if interval_hours == 0 {
        return Err(ScheduleError::ZeroInterval(AutomationFrequency::Hourly));
    }
    match fields.get("BYDAY", Ghost(map)) {
        None => Ok(AutomationSchedule::Hourly { interval_hours, byday: None }),
        Some(value) => match parse_byday(value.as_str()) {
            Err(e) => Err(e),
            Ok(days) => Ok(AutomationSchedule::Hourly { interval_hours, byday: Some(days) }),
        },
    }
}

fn read_weekly(fields: &Fields, Ghost(map): Ghost<Map<Seq<char>, Seq<char>>>) -> (r: Result<
    AutomationSchedule,
    ScheduleError,
>)
    requires
        fields.is(map),
    ensures
        weekly_meaning(map, r),
{
    let byday = match fields.get("BYDAY", Ghost(map)) {
        None => {
            return Err(ScheduleError::MissingField(RruleField::Byday));
        },
        Some(value) => match parse_byday(value.as_str()) {
            Err(e) => {
                return Err(e);
            },
            Ok(days) => days,
        },
    };
    let byhour: u32 = match fields.get("BYHOUR", Ghost(map)) {
        None => {
            return Err(ScheduleError::MissingField(RruleField::Byhour));
        },
        Some(value) => match parse_u32(value.as_str()) {
            None => {
                return Err(ScheduleError::InvalidNumber(RruleField::Byhour));
            },
            Some(n) => n,
        },
    };
    let byminute: u32 = match fields.get("BYMINUTE", Ghost(map)) {
        None => {
            return Err(ScheduleError::MissingField(RruleField::Byminute));
        },
        Some(value) => match parse_u32(value.as_str()) {
            None => {
                return Err(ScheduleError::InvalidNumber(RruleField::Byminute));
            },
            Some(n) => n,
        },
    };
    if byhour > 23 {
        return Err(ScheduleError::ByhourRange);
    }
    if byminute > 59 {
        return Err(ScheduleError::ByminuteRange);
    }
    Ok(AutomationSchedule::Weekly { byday, byhour, byminute })
}

impl AutomationSchedule {
    /// Reads a recurrence rule.
    pub fn parse_rrule(rrule: &str) -> (r: Result<AutomationSchedule, ScheduleError>)
        ensures
            rrule_meaning(rrule@, r),
    {
        let fields = match read_fields(rrule) {
            Err(item) => {
                return Err(ScheduleError::InvalidSegment(item));
            },
            Ok(fields) => fields,
        };
        let ghost map = rrule_fields(split_on(rrule@, ';'))->Ok_0;
        let freq = match fields.get("FREQ", Ghost(map)) {
            None => {
                return Err(ScheduleError::MissingFreq);
            },
            Some(value) => {
                if same_text(value.as_str(), "MINUTELY") {
                    AutomationFrequency::Minutely
                } else if same_text(value.as_str(), "HOURLY") {
                    AutomationFrequency::Hourly
                } else if same_text(value.as_str(), "WEEKLY") {
                    AutomationFrequency::Weekly
                } else {
                    return Err(ScheduleError::UnsupportedFreq(copy_text(value.as_str())));
                }
            },
        };
        proof {
            reveal_strlit("MINUTELY");
            reveal_strlit("HOURLY");
            reveal_strlit("WEEKLY");
            assert("MINUTELY"@[0] == 'M' && "HOURLY"@[0] == 'H' && "WEEKLY"@[0] == 'W');
        }
        if let Some(key) = fields.first_unsupported(freq, Ghost(map)) {
            return Err(ScheduleError::UnsupportedField { key, freq });
        }
        match freq {
            AutomationFrequency::Minutely => read_minutely(&fields, Ghost(map)),
            AutomationFrequency::Hourly => read_hourly(&fields, Ghost(map)),
            AutomationFrequency::Weekly => read_weekly(&fields, Ghost(map)),
        }
    }
}

} // verus!
