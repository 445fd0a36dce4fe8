//! Instants, weekdays and the arithmetic of the schedule.
//!
//! A [`Timestamp`] is a number of whole seconds since the Unix epoch and the
//! nanoseconds within that second. Days, weekdays and seconds of a minute are
//! read off the seconds by integer division; only the clock and the machine's
//! time zone are asked of `chrono`.
use vstd::prelude::*;

verus! {

/// First second of the supported calendar, the start of January 1, 262144 BCE.
pub const MIN_SECS: i64 = -8_334_601_228_800;

/// Last second of the supported calendar, the end of December 31, 262142 CE.
pub const MAX_SECS: i64 = 8_210_266_876_799;

/// Last day of the supported calendar, counted from the epoch.
pub const MAX_DAY: i64 = 95_026_236;

pub const DAY_SECS: i64 = 86_400;

/// An instant in UTC.
#[derive(Clone, Copy, Debug, PartialEq, Eq, PartialOrd, Ord, Hash, Structural)]
pub struct Timestamp {
    /// Whole seconds since the Unix epoch, rounded towards the past.
    pub secs: i64,
    /// Nanoseconds within the second.
    pub nanos: u32,
}

/// A day of the week.
#[derive(Clone, Copy, Debug, PartialEq, Eq, Hash, Structural)]
pub enum Weekday {
    Mon,
    Tue,
    Wed,
    Thu,
    Fri,
    Sat,
    Sun,
}

/// What a wall clock reading stands for in the local time zone.
#[derive(Clone, Copy, Debug, PartialEq, Eq, Structural)]
pub enum LocalTime {
    /// The clock never shows that reading (it is skipped).
    Missing,
    /// The clock shows it once.
    Single(Timestamp),
    /// The clock shows it twice: first at the earlier instant, then at the later.
    Ambiguous(Timestamp, Timestamp),
}

impl Timestamp {
    /// Whether the instant lies in the supported calendar and is normalised.
    pub open spec fn wf(self) -> bool {
        &&& MIN_SECS <= self.secs <= MAX_SECS
        &&& self.nanos < 1_000_000_000
    }

    /// Nanoseconds since the epoch.
    pub open spec fn ns(self) -> int {
        self.secs * 1_000_000_000 + self.nanos
    }

    /// The order of instants.
    pub open spec fn before(self, other: Timestamp) -> bool {
        self.secs < other.secs || (self.secs == other.secs && self.nanos < other.nanos)
    }

    pub open spec fn at_or_before(self, other: Timestamp) -> bool {
        self.before(other) || self == other
    }

    /// Whether `self` comes strictly before `other`.
    pub fn is_before(&self, other: &Timestamp) -> (r: bool)
        ensures
            r == self.before(*other),
    {
        self.secs < other.secs || (self.secs == other.secs && self.nanos < other.nanos)
    }

    /// Whole microseconds since the epoch.
    pub fn timestamp_micros(&self) -> (r: i64)
        requires
            self.wf(),
        ensures
            r as int == micros(*self),
    {
        self.secs * 1_000_000 + (self.nanos / 1_000) as i64
    }
}

/// Whole microseconds since the epoch, rounded towards the past.
pub open spec fn micros(t: Timestamp) -> int {
    t.secs * 1_000_000 + t.nanos as int / 1_000
}

/// The instant `secs` seconds after the epoch.
pub open spec fn at_second(secs: int) -> Timestamp {
    Timestamp { secs: secs as i64, nanos: 0 }
}

/// Whether a number of seconds lies in the supported calendar.
pub open spec fn in_calendar(secs: int) -> bool {
    MIN_SECS <= secs <= MAX_SECS
}

/// The second of the minute that a clock `offset` seconds ahead of UTC shows.
pub open spec fn second_of_minute(secs: int, offset: int) -> int {
    (secs + offset) % 60
}

/// The day, counted from the epoch, that a clock `offset` seconds ahead shows.
pub open spec fn day_of(secs: int, offset: int) -> int {
    (secs + offset) / 86_400
}

/// The weekday of a day counted from the epoch, which was a Thursday.
pub open spec fn weekday_of_day(day: int) -> Weekday {
    let k = (day + 3) % 7;
    if k == 0 {
        Weekday::Mon
    } else if k == 1 {
        Weekday::Tue
    } else if k == 2 {
        Weekday::Wed
    } else if k == 3 {
        Weekday::Thu
    } else if k == 4 {
        Weekday::Fri
    } else if k == 5 {
        Weekday::Sat
    } else {
        Weekday::Sun
    }
}

/// Division rounded towards negative infinity.
pub fn floor_div(a: i64, b: i64) -> (r: i64)
    requires
        b > 1,
    ensures
        r as int == a as int / b as int,
{
    let q: i64 = if a >= 0 { a / b } else { -((-(a + 1)) / b) - 1 };
    proof {
        let (x, y, w) = (a as int, b as int, q as int);
        if a < 0 {
            let n = -(x + 1);
            assert(x / y == -(n / y) - 1) by (nonlinear_arith)
                requires
                    n == -(x + 1),
                    n >= 0,
                    y > 1,
            ;
        }
    }
    q
}

/// Remainder that is never negative.
pub fn floor_mod(a: i64, b: i64) -> (r: i64)
    requires
        1 < b <= 86_400,
    ensures
        r as int == a as int % b as int,
{
    let q: i64 = floor_div(a, b);
    proof {
        let (x, y, w) = (a as int, b as int, q as int);
        assert(x - y * w == x % y && 0 <= x - y * w < y) by (nonlinear_arith)
            requires
                w == x / y,
                y > 1,
        ;
        assert(y * w <= x && x - y < y * w) by (nonlinear_arith)
            requires
                0 <= x - y * w < y,
        ;
        if a < 0 {
            assert(w * y >= i64::MIN - 86_400);
        }
    }
    let p: i128 = (q as i128) * (b as i128);
    ((a as i128) - p) as i64
}

/// The weekday of a day counted from the epoch.
pub fn weekday(day: i64) -> (r: Weekday)
    requires
        -200_000_000 <= day <= 200_000_000,
    ensures
        r == weekday_of_day(day as int),
{
    let k: i64 = floor_mod(day + 3, 7);
    if k == 0 {
        Weekday::Mon
    } else if k == 1 {
        Weekday::Tue
    } else if k == 2 {
        Weekday::Wed
    } else if k == 3 {
        Weekday::Thu
    } else if k == 4 {
        Weekday::Fri
    } else if k == 5 {
        Weekday::Sat
    } else {
        Weekday::Sun
    }
}

/// Milliseconds from `start` to `end`, rounded down.
pub open spec fn elapsed_millis(start: Timestamp, end: Timestamp) -> int {
    (end.ns() - start.ns()) / 1_000_000
}

/// Milliseconds from `start` to `end` as a duration: none before `start`, and
/// never more than a `u64` holds.
pub open spec fn duration_millis(start: Timestamp, end: Timestamp) -> int {
    if end.ns() <= start.ns() {
        0
    } else if elapsed_millis(start, end) > u64::MAX {
        u64::MAX as int
    } else {
        elapsed_millis(start, end)
    }
}

/// Nanoseconds from `start` to `end`.
pub fn nanos_between(start: Timestamp, end: Timestamp) -> (r: i128)
    ensures
        r as int == end.ns() - start.ns(),
{
    let s: i128 = (start.secs as i128) * 1_000_000_000 + (start.nanos as i128);
    let e: i128 = (end.secs as i128) * 1_000_000_000 + (end.nanos as i128);
    e - s
}

/// The time from `start` to `end` in whole milliseconds.
pub fn duration_ms(start: Timestamp, end: Timestamp) -> (r: u64)
    ensures
        r as int == duration_millis(start, end),
{
    let d: i128 = nanos_between(start, end);
    if d <= 0 {
        return 0;
    }
    let ms: i128 = d / 1_000_000;
    if ms > u64::MAX as i128 {
        u64::MAX
    } else {
        ms as u64
    }
}

/// The time from `start` to `end` in whole milliseconds, or nothing where `end`
/// lies a full millisecond or more before `start`.
pub open spec fn checked_duration_millis(start: Timestamp, end: Timestamp) -> Option<u64> {
    if end.ns() - start.ns() <= -1_000_000 || elapsed_millis(start, end) > u64::MAX {
        None
    } else {
        Some(duration_millis(start, end) as u64)
    }
}

/// The time from `start` to `end` in whole milliseconds, or nothing where `end`
/// lies a full millisecond or more before `start`.
pub fn checked_duration_ms(start: Timestamp, end: Timestamp) -> (r: Option<u64>)
    ensures
        r == checked_duration_millis(start, end),
{
    let d: i128 = nanos_between(start, end);
    if d <= -1_000_000 {
        return None;
    }
    if d <= 0 {
        return Some(0);
    }
    let ms: i128 = d / 1_000_000;
    if ms > u64::MAX as i128 {
        return None;
    }
    Some(ms as u64)
}

/// Calls `chrono::Utc::now`. The contract says only that the clock shows an
/// instant of the supported calendar: what it shows depends on the machine. The
/// call panics where the machine's clock is set before the epoch.
#[verifier::external_body]
pub(crate) fn now() -> (r: Timestamp)
    ensures
        r.wf(),
{
    let t = chrono::Utc::now();
    Timestamp { secs: t.timestamp(), nanos: t.timestamp_subsec_nanos() }
}

/// Calls `chrono::TimeZone::offset_from_utc_datetime` of `chrono::Local`. The
/// contract says only that an offset is less than a day, which `FixedOffset`
/// guarantees: which offset the machine's time zone has is left unsaid. The call panics
/// where the machine's zone is set to an offset of a day or more.
#[verifier::external_body]
pub(crate) fn local_offset(t: Timestamp) -> (r: i32)
    requires
        t.wf(),
    ensures
        -86_400 < r < 86_400,
{
    let utc = chrono::DateTime::from_timestamp(t.secs, t.nanos).unwrap().naive_utc();
    chrono::Offset::fix(&chrono::TimeZone::offset_from_utc_datetime(&chrono::Local, &utc))
        .local_minus_utc()
}

/// The instants that a wall clock reading may stand for: the reading less an
/// offset of under a day.
pub open spec fn plausible_local_time(reading: int, r: LocalTime) -> bool {
    match r {
        LocalTime::Missing => true,
        LocalTime::Single(t) => plausible_instant(reading, t),
        LocalTime::Ambiguous(a, b) => plausible_instant(reading, a) && plausible_instant(reading, b),
    }
}

pub open spec fn plausible_instant(reading: int, t: Timestamp) -> bool {
    t.wf() && t.nanos == 0 && reading - 86_400 < t.secs < reading + 86_400
}

/// Calls `chrono::TimeZone::from_local_datetime` of `chrono::Local` on a wall
/// clock reading given in seconds. The contract says only that what comes back
/// differs from the reading by an offset of under a day: the machine's time zone
/// decides the rest. The call panics where that zone is set to an offset of a day or more.
#[verifier::external_body]
pub(crate) fn local_time(reading: i64) -> (r: LocalTime)
    requires
        in_calendar(reading as int),
    ensures
        plausible_local_time(reading as int, r),
{
    let naive = chrono::DateTime::from_timestamp(reading, 0).unwrap().naive_utc();
    match chrono::TimeZone::from_local_datetime(&chrono::Local, &naive) {
        chrono::LocalResult::None => LocalTime::Missing,
        chrono::LocalResult::Single(t) => LocalTime::Single(
            Timestamp { secs: t.timestamp(), nanos: t.timestamp_subsec_nanos() }),
        chrono::LocalResult::Ambiguous(a, b) => LocalTime::Ambiguous(
            Timestamp { secs: a.timestamp(), nanos: a.timestamp_subsec_nanos() },
            Timestamp { secs: b.timestamp(), nanos: b.timestamp_subsec_nanos() },
        ),
    }
}

} // verus!
