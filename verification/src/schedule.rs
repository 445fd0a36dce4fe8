//! The slots of a schedule.
//!
//! Minutely and hourly schedules step from the last slot; weekly schedules name
//! wall clock times. Both depend on the local time zone, which is asked for the
//! offset at an instant and for the instant behind a wall clock reading. The
//! functions whose names end in `_with` take the two questions as arguments; the
//! others ask the machine.
use vstd::prelude::*;

use crate::rrule::{has_day, AutomationSchedule, ScheduleError};
use crate::time::{
    at_second, day_of, floor_div, floor_mod, in_calendar, local_offset, local_time, nanos_between,
    plausible_local_time, second_of_minute, weekday, weekday_of_day, LocalTime, Timestamp, Weekday,
    MAX_DAY, MAX_SECS, MIN_SECS,
};

verus! {

/// How many candidates an hourly schedule tries for one of its days.
pub const HOURLY_TRIES: u32 = 504;

/// How many days a weekly schedule looks ahead, today among them.
pub const WEEKLY_TRIES: i64 = 15;

/// A time zone, as the answers it may give: the offset from UTC at an instant,
/// and what a wall clock reading stands for.
pub struct Zone {
    pub offset: spec_fn(Timestamp, i32) -> bool,
    pub reading: spec_fn(i64, LocalTime) -> bool,
}

/// The zone that answers as `offset_of` and `reading_of` do.
pub open spec fn zone_of<F: Fn(Timestamp) -> i32, G: Fn(i64) -> LocalTime>(
    offset_of: F,
    reading_of: G,
) -> Zone {
    Zone {
        offset: |t: Timestamp, off: i32| call_ensures(offset_of, (t,), off),
        reading: |reading: i64, local: LocalTime| call_ensures(reading_of, (reading,), local),
    }
}

/// The zone that may give any plausible answer.
pub open spec fn any_zone() -> Zone {
    Zone {
        offset: |t: Timestamp, off: i32| -86_400 < off < 86_400,
        reading: |reading: i64, local: LocalTime| plausible_local_time(reading as int, local),
    }
}

/// `offset_of` and `reading_of` can be asked about the whole calendar and give
/// plausible answers.
pub open spec fn answers_plausibly<F: Fn(Timestamp) -> i32, G: Fn(i64) -> LocalTime>(
    offset_of: F,
    reading_of: G,
) -> bool {
    &&& forall|t: Timestamp| #[trigger] t.wf() ==> call_requires(offset_of, (t,))
    &&& forall|t: Timestamp, off: i32| #[trigger]
        call_ensures(offset_of, (t,), off) ==> -86_400 < off < 86_400
    &&& forall|reading: i64| #[trigger]
        in_calendar(reading as int) ==> call_requires(reading_of, (reading,))
    &&& forall|reading: i64, local: LocalTime| #[trigger]
        call_ensures(reading_of, (reading,), local) ==> plausible_local_time(reading as int, local)
}

/// The instant that a wall clock reading is taken for: the earlier one where
/// there are two, and none where the clock skips the reading.
pub open spec fn resolved(local: LocalTime) -> Option<Timestamp> {
    match local {
        LocalTime::Missing => None,
        LocalTime::Single(t) => Some(t),
        LocalTime::Ambiguous(earlier, _) => Some(earlier),
    }
}

/// The instant that a wall clock reading is taken for.
pub fn resolve_local_datetime(local: LocalTime) -> (r: Option<Timestamp>)
    ensures
        r == resolved(local),
{
    match local {
        LocalTime::Missing => None,
        LocalTime::Single(t) => Some(t),
        LocalTime::Ambiguous(earlier, _) => Some(earlier),
    }
}

/// `step` seconds after `after`, back to the start of the minute that a clock
/// `off` seconds ahead of UTC shows.
pub open spec fn stepped(after: Timestamp, off: int, step: int) -> int {
    after.secs + step - second_of_minute(after.secs as int, off)
}

/// The slot that a plain step leads to.
pub open spec fn step_slot(
    after: Timestamp,
    off: int,
    step: int,
    r: Result<Timestamp, ScheduleError>,
) -> bool {
    if after.secs + step > MAX_SECS || stepped(after, off, step) < MIN_SECS {
        r == Err::<Timestamp, _>(ScheduleError::OutOfRange)
    } else {
        r == Ok::<_, ScheduleError>(at_second(stepped(after, off, step)))
    }
}

/// Whether a clock `off` seconds ahead shows one of `days` at `secs`.
pub open spec fn on_days(days: Seq<Weekday>, secs: int, off: int) -> bool {
    days.contains(weekday_of_day(day_of(secs, off)))
}

/// The first of the candidates `first`, `first + step`, ... that falls on one of
/// `days`; `offs[k]` is the zone's offset at candidate `k`.
pub open spec fn first_on_days(
    zone: Zone,
    days: Seq<Weekday>,
    first: int,
    step: int,
    offs: Seq<i32>,
    r: Result<Timestamp, ScheduleError>,
) -> bool {
    let n = offs.len() as int;
    &&& n > 0 ==> first + (n - 1) * step <= MAX_SECS
    &&& forall|k: int|
        0 <= k < n ==> (zone.offset)(at_second(first + k * step), #[trigger] offs[k])
    &&& match r {
        Ok(t) => 0 < n <= HOURLY_TRIES && t == at_second(first + (n - 1) * step) && on_days(
            days,
            first + (n - 1) * step,
            offs[n - 1] as int,
        ) && forall|k: int|
            0 <= k < n - 1 ==> !on_days(days, first + k * step, #[trigger] offs[k] as int),
        Err(e) => {
            &&& forall|k: int|
                0 <= k < n ==> !on_days(days, first + k * step, #[trigger] offs[k] as int)
            &&& if first + n * step > MAX_SECS {
                0 < n <= HOURLY_TRIES && e == ScheduleError::OutOfRange
            } else {
                n == HOURLY_TRIES && e == ScheduleError::NoHourlySlot
            }
        },
    }
}

/// The next slot of an hourly schedule.
pub open spec fn hourly_slot(
    zone: Zone,
    interval_hours: u32,
    byday: Option<Vec<Weekday>>,
    after: Timestamp,
    off: int,
    r: Result<Timestamp, ScheduleError>,
) -> bool {
    let step = interval_hours * 3_600;
    match byday {
        None => step_slot(after, off, step, r),
        Some(days) => if after.secs + step > MAX_SECS || stepped(after, off, step) < MIN_SECS {
            r == Err::<Timestamp, _>(ScheduleError::OutOfRange)
        } else {
            exists|offs: Seq<i32>| #[trigger]
                first_on_days(zone, days@, stepped(after, off, step), step, offs, r)
        },
    }
}

/// The wall clock reading, in seconds, of `hour:minute` on day `day`.
pub open spec fn reading_on(day: int, hour: u32, minute: u32) -> int {
    day * 86_400 + hour * 3_600 + minute * 60
}

/// Whether a weekly schedule names a wall clock time on day `day`.
pub open spec fn names_day(days: Seq<Weekday>, hour: u32, minute: u32, day: int) -> bool {
    days.contains(weekday_of_day(day)) && hour < 24 && minute < 60
}

/// The slot that `local` stands for, where it comes after `after`.
pub open spec fn later_slot(local: LocalTime, after: Timestamp) -> Option<Timestamp> {
    match resolved(local) {
        Some(t) => if after.before(t) {
            Some(t)
        } else {
            None
        },
        None => None,
    }
}

/// The first slot after `after` on the days from `today`; `answers[k]` is what the
/// zone says of the reading `k` days ahead.
pub open spec fn first_weekly(
    zone: Zone,
    days: Seq<Weekday>,
    hour: u32,
    minute: u32,
    after: Timestamp,
    today: int,
    answers: Seq<LocalTime>,
    r: Result<Timestamp, ScheduleError>,
) -> bool {
    let n = answers.len() as int;
    &&& forall|k: int|
        0 <= k < n ==> {
            &&& today + k <= MAX_DAY
            &&& names_day(days, hour, minute, today + k) ==> (zone.reading)(
                reading_on(today + k, hour, minute) as i64,
                #[trigger] answers[k],
            )
        }
    &&& match r {
        Ok(t) => {
            &&& 0 < n <= WEEKLY_TRIES
            &&& names_day(days, hour, minute, today + n - 1)
            &&& later_slot(answers[n - 1], after) == Some(t)
            &&& forall|k: int|
                0 <= k < n - 1 && names_day(days, hour, minute, today + k) ==> later_slot(
                    #[trigger] answers[k],
                    after,
                ) is None
        },
        Err(e) => {
            &&& forall|k: int|
                0 <= k < n && names_day(days, hour, minute, today + k) ==> later_slot(
                    #[trigger] answers[k],
                    after,
                ) is None
            &&& if n < WEEKLY_TRIES {
                today + n > MAX_DAY && e == ScheduleError::OutOfRange
            } else {
                n == WEEKLY_TRIES && e == ScheduleError::NoWeeklySlot
            }
        },
    }
}

/// The next slot of a weekly schedule.
pub open spec fn weekly_slot(
    zone: Zone,
    days: Seq<Weekday>,
    hour: u32,
    minute: u32,
    after: Timestamp,
    off: int,
    r: Result<Timestamp, ScheduleError>,
) -> bool {
    if !in_calendar(after.secs + off) {
        r == Err::<Timestamp, _>(ScheduleError::OutOfRange)
    } else {
        exists|answers: Seq<LocalTime>| #[trigger]
            first_weekly(
                zone,
                days,
                hour,
                minute,
                after,
                day_of(after.secs as int, off),
                answers,
                r,
            )
    }
}

/// The next slot of `schedule` after `after` in a zone whose offset there is `off`.
pub open spec fn slot_at_offset(
    zone: Zone,
    schedule: AutomationSchedule,
    after: Timestamp,
    off: int,
    r: Result<Timestamp, ScheduleError>,
) -> bool {
    match schedule {
        AutomationSchedule::Minutely { interval_minutes } => step_slot(
            after,
            off,
            interval_minutes * 60,
            r,
        ),
        AutomationSchedule::Hourly { interval_hours, byday } => hourly_slot(
            zone,
            interval_hours,
            byday,
            after,
            off,
            r,
        ),
        AutomationSchedule::Weekly { byday, byhour, byminute } => weekly_slot(
            zone,
            byday@,
            byhour,
            byminute,
            after,
            off,
            r,
        ),
    }
}

/// What [`AutomationSchedule::next_after`] may return in `zone`.
pub open spec fn next_slot(
    zone: Zone,
    schedule: AutomationSchedule,
    after: Timestamp,
    r: Result<Timestamp, ScheduleError>,
) -> bool {
    exists|off: i32| #[trigger]
        (zone.offset)(after, off) && slot_at_offset(zone, schedule, after, off as int, r)
}

/// A due time brought to the start of a minute, as minutely schedules ask.
pub open spec fn normalized_cursor(schedule: AutomationSchedule, cursor: Timestamp) -> Option<
    Timestamp,
> {
    if schedule !is Minutely || (cursor.secs as int % 60 == 0 && cursor.nanos == 0) {
        Some(cursor)
    } else if cursor.secs + 60 > MAX_SECS {
        None
    } else {
        Some(at_second(cursor.secs + 60 - cursor.secs as int % 60))
    }
}

/// How many whole periods of `period` seconds lie between two instants.
pub open spec fn whole_periods(from: Timestamp, to: Timestamp, period: int) -> int {
    (to.ns() - from.ns()) / (period * 1_000_000_000)
}

/// The last of the steps of `interval` periods from `first` that is not after `now`.
pub open spec fn last_step(first: Timestamp, now: Timestamp, interval: int, period: int) -> Timestamp {
    let steps = whole_periods(first, now, period) / interval * interval;
    Timestamp { secs: (first.secs + steps * period) as i64, nanos: first.nanos }
}

/// The candidate `k` steps of `step` seconds before `from`.
pub open spec fn steps_back(from: Timestamp, k: int, step: int) -> Timestamp {
    Timestamp { secs: (from.secs - k * step) as i64, nanos: from.nanos }
}

/// The last candidate, back from `from`, that falls on one of `days`, or `first`
/// where none does; `offs[k]` is the zone's offset `k` steps back.
pub open spec fn last_on_days(
    zone: Zone,
    days: Seq<Weekday>,
    first: Timestamp,
    from: Timestamp,
    step: int,
    offs: Seq<i32>,
    r: Result<Timestamp, ScheduleError>,
) -> bool {
    let n = offs.len() as int;
    &&& forall|k: int|
        0 <= k < n ==> (zone.offset)(steps_back(from, k, step), #[trigger] offs[k])
    &&& forall|k: int|
        0 <= k < n - 1 ==> !on_days(days, from.secs - k * step, #[trigger] offs[k] as int)
            && first.secs < from.secs - k * step
    &&& match r {
        Ok(t) => {
            &&& 0 < n <= HOURLY_TRIES
            &&& if on_days(days, from.secs - (n - 1) * step, offs[n - 1] as int) {
                t == steps_back(from, n - 1, step)
            } else {
                t == first && from.secs - (n - 1) * step <= first.secs
            }
        },
        Err(e) => {
            &&& n == HOURLY_TRIES
            &&& !on_days(days, from.secs - (n - 1) * step, offs[n - 1] as int)
            &&& first.secs < from.secs - (n - 1) * step
            &&& e == ScheduleError::NoHourlyFastForward
        },
    }
}

/// A run of weekly slots from `first`, none of them after `now`, and what
/// follows its last one.
pub open spec fn weekly_run(
    zone: Zone,
    schedule: AutomationSchedule,
    first: Timestamp,
    now: Timestamp,
    run: Seq<Timestamp>,
    r: Result<Timestamp, ScheduleError>,
) -> bool {
    &&& run.len() > 0
    &&& run[0] == first
    &&& forall|i: int|
        1 <= i < run.len() ==> (#[trigger] run[i]).at_or_before(now) && next_slot(
            zone,
            schedule,
            run[i - 1],
            Ok(run[i]),
        )
    &&& match r {
        Ok(latest) => latest == run.last() && exists|next: Timestamp|
            now.before(next) && #[trigger] next_slot(zone, schedule, latest, Ok(next)),
        Err(e) => next_slot(zone, schedule, run.last(), Err(e)),
    }
}

/// The last slot not after `now`, given a first due time before `now`.
pub open spec fn latest_from(
    zone: Zone,
    schedule: AutomationSchedule,
    first: Timestamp,
    now: Timestamp,
    r: Result<Timestamp, ScheduleError>,
) -> bool {
    match schedule {
        AutomationSchedule::Minutely { interval_minutes } => r == Ok::<_, ScheduleError>(
            last_step(first, now, interval_minutes as int, 60),
        ),
        AutomationSchedule::Hourly { interval_hours, byday } => {
            let from = last_step(first, now, interval_hours as int, 3_600);
            match byday {
                None => r == Ok::<_, ScheduleError>(from),
                Some(days) => exists|offs: Seq<i32>| #[trigger]
                    last_on_days(zone, days@, first, from, interval_hours * 3_600, offs, r),
            }
        },
        AutomationSchedule::Weekly { .. } => exists|run: Seq<Timestamp>| #[trigger]
            weekly_run(zone, schedule, first, now, run, r),
    }
}

/// What [`AutomationSchedule::latest_due_at_or_before`] may return in `zone`.
pub open spec fn latest_due(
    zone: Zone,
    schedule: AutomationSchedule,
    first_due: Timestamp,
    now: Timestamp,
    r: Result<Timestamp, ScheduleError>,
) -> bool {
    match normalized_cursor(schedule, first_due) {
        None => r == Err::<Timestamp, _>(ScheduleError::OutOfRange),
        Some(first) => if !first.before(now) {
            r == Ok::<_, ScheduleError>(first)
        } else {
            latest_from(zone, schedule, first, now, r)
        },
    }
}

/// What [`AutomationSchedule::next_due_after`] may return in `zone`.
pub open spec fn next_due(
    zone: Zone,
    schedule: AutomationSchedule,
    first_due: Timestamp,
    now: Timestamp,
    r: Result<Timestamp, ScheduleError>,
) -> bool {
    match normalized_cursor(schedule, first_due) {
        None => r == Err::<Timestamp, _>(ScheduleError::OutOfRange),
        Some(first) => if now.before(first) {
            r == Ok::<_, ScheduleError>(first)
        } else {
            exists|latest: Result<Timestamp, ScheduleError>| #[trigger]
                latest_due(zone, schedule, first, now, latest) && match latest {
                    Ok(t) => next_slot(zone, schedule, t, r),
                    Err(e) => r == Err::<Timestamp, _>(e),
                }
        },
    }
}

impl AutomationSchedule {
    /// Whether the schedule ever advances: its interval is not zero.
    pub open spec fn advances(self) -> bool {
        match self {
            AutomationSchedule::Minutely { interval_minutes } => interval_minutes > 0,
            AutomationSchedule::Hourly { interval_hours, .. } => interval_hours > 0,
            AutomationSchedule::Weekly { .. } => true,
        }
    }
}

/// `step` seconds on from `after`, back to the start of the local minute.
fn step_from(after: Timestamp, off: i32, step: i64) -> (r: Result<Timestamp, ScheduleError>)
    requires
        after.wf(),
        -86_400 < off < 86_400,
        0 <= step <= 20_000_000_000_000,
    ensures
        step_slot(after, off as int, step as int, r),
{
    let moved: i64 = after.secs + step;
    if moved > MAX_SECS {
        return Err(ScheduleError::OutOfRange);
    }
    let second: i64 = floor_mod(after.secs + off as i64, 60);
    let secs: i64 = moved - second;
    if secs < MIN_SECS {
        return Err(ScheduleError::OutOfRange);
    }
    Ok(Timestamp { secs, nanos: 0 })
}

/// Whether a clock `off` seconds ahead of UTC shows one of `days`.
fn shows_one_of(days: &Vec<Weekday>, secs: i64, off: i32) -> (r: bool)
    requires
        in_calendar(secs as int),
        -86_400 < off < 86_400,
    ensures
        r == on_days(days@, secs as int, off as int),
{
    let day: i64 = floor_div(secs + off as i64, 86_400);
    has_day(days, weekday(day))
}

fn find_hourly<F: Fn(Timestamp) -> i32, G: Fn(i64) -> LocalTime>(
    days: &Vec<Weekday>,
    first: i64,
    step: i64,
    offset_of: &F,
    reading_of: &G,
) -> (r: Result<Timestamp, ScheduleError>)
    requires
        answers_plausibly(*offset_of, *reading_of),
        in_calendar(first as int),
        0 <= step <= 20_000_000_000_000,
    ensures
        exists|offs: Seq<i32>| #[trigger]
            first_on_days(
                zone_of(*offset_of, *reading_of),
                days@,
                first as int,
                step as int,
                offs,
                r,
            ),
{
    let ghost zone = zone_of(*offset_of, *reading_of);
    let ghost mut offs: Seq<i32> = Seq::empty();
    let mut candidate: i64 = first;
    let mut tries: u32 = 0;
    assert(first as int == first + 0 * step);
    while tries < HOURLY_TRIES
        invariant
            tries <= HOURLY_TRIES,
            offs.len() == tries,
            zone == zone_of(*offset_of, *reading_of),
            answers_plausibly(*offset_of, *reading_of),
            in_calendar(candidate as int),
            0 <= step <= 20_000_000_000_000,
            candidate as int == first + tries * step,
            tries > 0 ==> first + (tries - 1) * step <= MAX_SECS,
            forall|k: int|
                0 <= k < tries ==> (zone.offset)(
                    at_second(first + k * step),
                    #[trigger] offs[k],
                ) && !on_days(days@, first + k * step, offs[k] as int),
        decreases HOURLY_TRIES - tries,
    {
        let at = Timestamp { secs: candidate, nanos: 0 };
        assert(at.wf());
        let off: i32 = offset_of(at);
        let ghost before = offs;
        proof {
            offs = offs.push(off);
            assert(at == at_second(first + tries * step));
            assert forall|k: int| 0 <= k < tries + 1 implies (zone.offset)(
                at_second(first + k * step),
                #[trigger] offs[k],
            ) by {
                if k < tries {
                    assert(offs[k] == before[k]);
                }
            }
        }
        if shows_one_of(days, candidate, off) {
            assert forall|k: int| 0 <= k < tries implies !on_days(
                days@,
                first + k * step,
                #[trigger] offs[k] as int,
            ) by {
                assert(offs[k] == before[k]);
            }
            assert(first_on_days(zone, days@, first as int, step as int, offs, Ok(at)));
            return Ok(at);
        }
        assert forall|k: int| 0 <= k < tries + 1 implies !on_days(
            days@,
            first + k * step,
            #[trigger] offs[k] as int,
        ) by {
            if k < tries {
                assert(offs[k] == before[k]);
            }
        }
        assert(first + (tries + 1) * step == candidate + step) by (nonlinear_arith)
            requires
                candidate as int == first + tries * step,
        ;
        let next: i64 = candidate + step;
        if next > MAX_SECS {
            let failed: Result<Timestamp, ScheduleError> = Err(ScheduleError::OutOfRange);
            assert(first_on_days(zone, days@, first as int, step as int, offs, failed));
            return failed;
        }
        candidate = next;
        tries = tries + 1;
    }
    let failed: Result<Timestamp, ScheduleError> = Err(ScheduleError::NoHourlySlot);
    assert(first_on_days(zone, days@, first as int, step as int, offs, failed));
    failed
}

fn find_weekly<F: Fn(Timestamp) -> i32, G: Fn(i64) -> LocalTime>(
    days: &Vec<Weekday>,
    hour: u32,
    minute: u32,
    after: Timestamp,
    today: i64,
    offset_of: &F,
    reading_of: &G,
) -> (r: Result<Timestamp, ScheduleError>)
    requires
        answers_plausibly(*offset_of, *reading_of),
        -96_465_292 <= today <= MAX_DAY,
    ensures
        exists|answers: Seq<LocalTime>| #[trigger]
            first_weekly(
                zone_of(*offset_of, *reading_of),
                days@,
                hour,
                minute,
                after,
                today as int,
                answers,
                r,
            ),
{
    let ghost zone = zone_of(*offset_of, *reading_of);
    let ghost mut answers: Seq<LocalTime> = Seq::empty();
    let mut ahead: i64 = 0;
    while ahead < WEEKLY_TRIES
        invariant
            0 <= ahead <= WEEKLY_TRIES,
            answers.len() == ahead,
            zone == zone_of(*offset_of, *reading_of),
            answers_plausibly(*offset_of, *reading_of),
            -96_465_292 <= today <= MAX_DAY,
            forall|k: int|
                0 <= k < ahead ==> {
                    &&& today + k <= MAX_DAY
                    &&& names_day(days@, hour, minute, today + k) ==> (zone.reading)(
                        reading_on(today + k, hour, minute) as i64,
                        #[trigger] answers[k],
                    )
                    &&& names_day(days@, hour, minute, today + k) ==> later_slot(
                        answers[k],
                        after,
                    ) is None
                },
        decreases WEEKLY_TRIES - ahead,
    {
        let day: i64 = today + ahead;
        if day > MAX_DAY {
            let failed: Result<Timestamp, ScheduleError> = Err(ScheduleError::OutOfRange);
            assert(first_weekly(zone, days@, hour, minute, after, today as int, answers, failed));
            return failed;
        }
        let ghost before = answers;
        let mut found: Option<Timestamp> = None;
        if has_day(days, weekday(day)) && hour < 24 && minute < 60 {
            let reading: i64 = day * 86_400 + hour as i64 * 3_600 + minute as i64 * 60;
            assert(in_calendar(reading as int));
            let local = reading_of(reading);
            if let Some(t) = resolve_local_datetime(local) {
                if after.is_before(&t) {
                    found = Some(t);
                }
            }
            proof {
                answers = answers.push(local);
                assert(reading == reading_on(today + ahead, hour, minute) as i64);
                assert((zone.reading)(reading, answers[ahead as int]));
            }
        } else {
            proof {
                answers = answers.push(LocalTime::Missing);
            }
        }
        assert forall|k: int| 0 <= k < ahead + 1 implies {
            &&& today + k <= MAX_DAY
            &&& names_day(days@, hour, minute, today + k) ==> (zone.reading)(
                reading_on(today + k, hour, minute) as i64,
                #[trigger] answers[k],
            )
            &&& k < ahead && names_day(days@, hour, minute, today + k) ==> later_slot(
                answers[k],
                after,
            ) is None
        } by {
            if k < ahead {
                assert(answers[k] == before[k]);
            }
        }
        if let Some(t) = found {
            assert(first_weekly(zone, days@, hour, minute, after, today as int, answers, Ok(t)));
            return Ok(t);
        }
        ahead = ahead + 1;
    }
    let failed: Result<Timestamp, ScheduleError> = Err(ScheduleError::NoWeeklySlot);
    assert(first_weekly(zone, days@, hour, minute, after, today as int, answers, failed));
    failed
}

impl AutomationSchedule {
    /// The next slot after `after`, in the zone that the two arguments answer for.
    pub fn next_after_with<F: Fn(Timestamp) -> i32, G: Fn(i64) -> LocalTime>(
        &self,
        after: Timestamp,
        offset_of: &F,
        reading_of: &G,
    ) -> (r: Result<Timestamp, ScheduleError>)
        requires
            after.wf(),
            answers_plausibly(*offset_of, *reading_of),
        ensures
            next_slot(zone_of(*offset_of, *reading_of), *self, after, r),
    {
        let ghost zone = zone_of(*offset_of, *reading_of);
        let off: i32 = offset_of(after);
        assert((zone.offset)(after, off));
        match self {
            AutomationSchedule::Minutely { interval_minutes } => {
                let step: i64 = *interval_minutes as i64 * 60;
                let r = step_from(after, off, step);
                assert(slot_at_offset(zone, *self, after, off as int, r));
                r
            },
            AutomationSchedule::Hourly { interval_hours, byday } => {
                let step: i64 = *interval_hours as i64 * 3_600;
                let r = match step_from(after, off, step) {
                    Err(e) => Err(e),
                    Ok(first) => match byday {
                        None => Ok(first),
                        Some(days) => find_hourly(days, first.secs, step, offset_of, reading_of),
                    },
                };
                assert(slot_at_offset(zone, *self, after, off as int, r));
                r
            },
            AutomationSchedule::Weekly { byday, byhour, byminute } => {
                let local: i64 = after.secs + off as i64;
                let r = if local < MIN_SECS || local > MAX_SECS {
                    Err(ScheduleError::OutOfRange)
                } else {
                    let today: i64 = floor_div(local, 86_400);
                    assert(today as int == day_of(after.secs as int, off as int));
                    find_weekly(byday, *byhour, *byminute, after, today, offset_of, reading_of)
                };
                assert(slot_at_offset(zone, *self, after, off as int, r));
                r
            },
        }
    }
}

/// The last of the steps is a whole number of steps after `first`, not after
/// `now`, and less than one step before it.
pub proof fn lemma_last_step(first: Timestamp, now: Timestamp, interval: int, period: int)
    requires
        first.wf(),
        now.wf(),
        first.before(now),
        interval > 0,
        period > 0,
    ensures
        ({
            let count = whole_periods(first, now, period) / interval;
            &&& count >= 0
            &&& whole_periods(first, now, period) >= 0
            &&& last_step(first, now, interval, period).secs == first.secs + count * (interval
                * period)
            &&& last_step(first, now, interval, period).wf()
            &&& last_step(first, now, interval, period).at_or_before(now)
            &&& now.ns() < last_step(first, now, interval, period).ns() + interval * period
                * 1_000_000_000
        }),
{
    let d = now.ns() - first.ns();
    let p = period * 1_000_000_000;
    let q = whole_periods(first, now, period);
    let count = q / interval;
    let steps = count * interval;
    assert(d > 0);
    assert(q >= 0 && q * p <= d < (q + 1) * p) by (nonlinear_arith)
        requires
            d > 0,
            p > 0,
            q == d / p,
    ;
    assert(count >= 0 && steps <= q < steps + interval) by (nonlinear_arith)
        requires
            q >= 0,
            interval > 0,
            count == q / interval,
            steps == count * interval,
    ;
    assert(steps * p <= d && d < (steps + interval) * p) by (nonlinear_arith)
        requires
            steps <= q < steps + interval,
            q * p <= d < (q + 1) * p,
            p > 0,
    ;
    assert(steps * p == steps * period * 1_000_000_000) by (nonlinear_arith)
        requires
            p == period * 1_000_000_000,
    ;
    assert((steps + interval) * p == steps * period * 1_000_000_000 + interval * period
        * 1_000_000_000) by (nonlinear_arith)
        requires
            p == period * 1_000_000_000,
    ;
    assert(steps * period == count * (interval * period)) by (nonlinear_arith)
        requires
            steps == count * interval,
    ;
    assert(steps * period >= 0) by (nonlinear_arith)
        requires
            steps == count * interval,
            count >= 0,
            interval > 0,
            period > 0,
    ;
    let x = steps * period;
    assert(x * 1_000_000_000 <= now.ns() - first.ns());
    assert(first.secs + x <= now.secs);
}

/// The last of the steps of `interval` periods from `first` that is not after `now`.
fn step_towards(first: Timestamp, now: Timestamp, interval: u32, period: i64) -> (r: Timestamp)
    requires
        first.wf(),
        now.wf(),
        first.before(now),
        interval > 0,
        0 < period <= 3_600,
    ensures
        r == last_step(first, now, interval as int, period as int),
{
    let d: i128 = nanos_between(first, now);
    let p: i128 = period as i128 * 1_000_000_000;
    let periods: i128 = d / p;
    let count: i128 = periods / (interval as i128);
    proof {
        lemma_last_step(first, now, interval as int, period as int);
        assert(count * (interval * period) <= now.secs - first.secs);
        assert(count as int * interval as int <= count * (interval * period)) by (nonlinear_arith)
            requires
                count >= 0,
                interval > 0,
                period > 0,
        ;
        assert(count * (interval * period) == count * interval * period) by (nonlinear_arith);
    }
    let steps: i128 = count * (interval as i128);
    let moved: i128 = steps * (period as i128);
    Timestamp { secs: (first.secs as i128 + moved) as i64, nanos: first.nanos }
}

fn find_hourly_back<F: Fn(Timestamp) -> i32, G: Fn(i64) -> LocalTime>(
    days: &Vec<Weekday>,
    first: Timestamp,
    from: Timestamp,
    step: i64,
    offset_of: &F,
    reading_of: &G,
    Ghost(count): Ghost<int>,
) -> (r: Result<Timestamp, ScheduleError>)
    requires
        answers_plausibly(*offset_of, *reading_of),
        first.wf(),
        from.wf(),
        from.nanos == first.nanos,
        0 < step <= 20_000_000_000_000,
        count >= 0,
        from.secs == first.secs + count * step,
    ensures
        exists|offs: Seq<i32>| #[trigger]
            last_on_days(
                zone_of(*offset_of, *reading_of),
                days@,
                first,
                from,
                step as int,
                offs,
                r,
            ),
{
    let ghost zone = zone_of(*offset_of, *reading_of);
    let ghost mut offs: Seq<i32> = Seq::empty();
    let mut candidate: i64 = from.secs;
    let mut tries: u32 = 0;
    assert(from.secs == from.secs - 0 * step);
    while tries < HOURLY_TRIES
        invariant
            tries <= HOURLY_TRIES,
            offs.len() == tries,
            zone == zone_of(*offset_of, *reading_of),
            answers_plausibly(*offset_of, *reading_of),
            first.wf(),
            from.wf(),
            from.nanos == first.nanos,
            0 < step <= 20_000_000_000_000,
            first.secs <= candidate <= from.secs,
            candidate as int == from.secs - tries * step,
            count >= tries,
            candidate as int == first.secs + (count - tries) * step,
            forall|k: int|
                0 <= k < tries ==> (zone.offset)(steps_back(from, k, step as int), #[trigger] offs[k])
                    && !on_days(days@, from.secs - k * step, offs[k] as int) && first.secs
                    < from.secs - k * step,
        decreases HOURLY_TRIES - tries,
    {
        let at = Timestamp { secs: candidate, nanos: from.nanos };
        assert(at.wf());
        let off: i32 = offset_of(at);
        let ghost before = offs;
        proof {
            offs = offs.push(off);
            assert(at == steps_back(from, tries as int, step as int));
            assert forall|k: int| 0 <= k < tries + 1 implies (zone.offset)(
                steps_back(from, k, step as int),
                #[trigger] offs[k],
            ) by {
                if k < tries {
                    assert(offs[k] == before[k]);
                }
            }
            assert forall|k: int| 0 <= k < tries implies !on_days(
                days@,
                from.secs - k * step,
                #[trigger] offs[k] as int,
            ) && first.secs < from.secs - k * step by {
                assert(offs[k] == before[k]);
            }
        }
        if shows_one_of(days, candidate, off) {
            assert(last_on_days(zone, days@, first, from, step as int, offs, Ok(at)));
            return Ok(at);
        }
        if candidate <= first.secs {
            assert(last_on_days(zone, days@, first, from, step as int, offs, Ok(first)));
            return Ok(first);
        }
        proof {
            let left = count - tries;
            assert(left >= 1 && (left - 1) * step == left * step - step && (tries + 1) * step
                == tries * step + step && (left - 1) * step >= 0) by (nonlinear_arith)
                requires
                    left * step > 0,
                    step > 0,
            ;
            assert forall|k: int| 0 <= k < tries + 1 implies !on_days(
                days@,
                from.secs - k * step,
                #[trigger] offs[k] as int,
            ) && first.secs < from.secs - k * step by {
                if k < tries {
                    assert(offs[k] == before[k]);
                }
            }
        }
        candidate = candidate - step;
        tries = tries + 1;
    }
    let failed: Result<Timestamp, ScheduleError> = Err(ScheduleError::NoHourlyFastForward);
    let ghost last = offs.len() - 1;
    assert((zone.offset)(steps_back(from, last, step as int), offs[last]));
    assert(!on_days(days@, from.secs - last * step, offs[last] as int));
    assert(first.secs < from.secs - last * step);
    assert forall|k: int| 0 <= k < last implies !on_days(
        days@,
        from.secs - k * step,
        #[trigger] offs[k] as int,
    ) && first.secs < from.secs - k * step by {
        assert((zone.offset)(steps_back(from, k, step as int), offs[k]));
    }
    assert(last_on_days(zone, days@, first, from, step as int, offs, failed));
    failed
}

/// A slot that a weekly schedule offers lies after `after` and on a whole second.
pub proof fn lemma_weekly_slot_later<F: Fn(Timestamp) -> i32, G: Fn(i64) -> LocalTime>(
    offset_of: F,
    reading_of: G,
    schedule: AutomationSchedule,
    after: Timestamp,
    t: Timestamp,
)
    requires
        answers_plausibly(offset_of, reading_of),
        schedule is Weekly,
        next_slot(zone_of(offset_of, reading_of), schedule, after, Ok(t)),
    ensures
        t.wf(),
        t.nanos == 0,
        after.before(t),
{
    let zone = zone_of(offset_of, reading_of);
    let off = choose|off: i32| #[trigger]
        (zone.offset)(after, off) && slot_at_offset(zone, schedule, after, off as int, Ok(t));
    let (days, hour, minute) = (schedule->Weekly_byday@, schedule->byhour, schedule->byminute);
    let today = day_of(after.secs as int, off as int);
    let answers = choose|answers: Seq<LocalTime>| #[trigger]
        first_weekly(zone, days, hour, minute, after, today, answers, Ok(t));
    let n = answers.len() as int;
    let reading = reading_on(today + n - 1, hour, minute) as i64;
    assert((zone.reading)(reading, answers[n - 1]));
    assert(plausible_local_time(reading as int, answers[n - 1]));
}

impl AutomationSchedule {
    /// A due time brought to the start of a minute where the schedule is minutely;
    /// nothing where that lies outside the calendar.
    pub fn normalize_due_cursor(&self, cursor: Timestamp) -> (r: Option<Timestamp>)
        requires
            cursor.wf(),
        ensures
            r == normalized_cursor(*self, cursor),
            r matches Some(t) ==> t.wf(),
    {
        let second: i64 = floor_mod(cursor.secs, 60);
        let minutely = match self {
            AutomationSchedule::Minutely { .. } => true,
            _ => false,
        };
        if !minutely || (second == 0 && cursor.nanos == 0) {
            return Some(cursor);
        }
        if cursor.secs + 60 > MAX_SECS {
            return None;
        }
        Some(Timestamp { secs: cursor.secs + 60 - second, nanos: 0 })
    }

    /// The last slot not after `now`, counted from `first_due`, in the zone that the
    /// two last arguments answer for.
    pub fn latest_due_at_or_before_with<F: Fn(Timestamp) -> i32, G: Fn(i64) -> LocalTime>(
        &self,
        first_due: Timestamp,
        now: Timestamp,
        offset_of: &F,
        reading_of: &G,
    ) -> (r: Result<Timestamp, ScheduleError>)
        requires
            first_due.wf(),
            now.wf(),
            self.advances(),
            answers_plausibly(*offset_of, *reading_of),
        ensures
            latest_due(zone_of(*offset_of, *reading_of), *self, first_due, now, r),
            r matches Ok(t) ==> t.wf(),
    {
        let ghost zone = zone_of(*offset_of, *reading_of);
        let first = match self.normalize_due_cursor(first_due) {
            None => {
                return Err(ScheduleError::OutOfRange);
            },
            Some(first) => first,
        };
        if !first.is_before(&now) {
            return Ok(first);
        }
        match self {
            AutomationSchedule::Minutely { interval_minutes } => {
                proof {
                    lemma_last_step(first, now, *interval_minutes as int, 60);
                }
                Ok(step_towards(first, now, *interval_minutes, 60))
            },
            AutomationSchedule::Hourly { interval_hours, byday } => {
                let from = step_towards(first, now, *interval_hours, 3_600);
                proof {
                    lemma_last_step(first, now, *interval_hours as int, 3_600);
                }
                match byday {
                    None => Ok(from),
                    Some(days) => {
                        let step: i64 = *interval_hours as i64 * 3_600;
                        let ghost count = whole_periods(first, now, 3_600) / (*interval_hours as int);
                        let r = find_hourly_back(
                            days,
                            first,
                            from,
                            step,
                            offset_of,
                            reading_of,
                            Ghost(count),
                        );
                        proof {
                            let offs = choose|offs: Seq<i32>| #[trigger]
                                last_on_days(zone, days@, first, from, step as int, offs, r);
                            lemma_back_in_range(zone, days@, first, from, step as int, offs, r, count);
                        }
                        r
                    },
                }
            },
            AutomationSchedule::Weekly { .. } => {
                let mut latest = first;
                let ghost mut run: Seq<Timestamp> = seq![first];
                loop
                    invariant
                        zone == zone_of(*offset_of, *reading_of),
                        answers_plausibly(*offset_of, *reading_of),
                        self is Weekly,
                        latest.wf(),
                        latest.secs <= now.secs,
                        normalized_cursor(*self, first_due) == Some(first),
                        first.before(now),
                        run.len() > 0,
                        run[0] == first,
                        run.last() == latest,
                        forall|i: int|
                            1 <= i < run.len() ==> (#[trigger] run[i]).at_or_before(now) && next_slot(
                                zone,
                                *self,
                                run[i - 1],
                                Ok(run[i]),
                            ),
                    decreases now.secs - latest.secs,
                {
                    match self.next_after_with(latest, offset_of, reading_of) {
                        Err(e) => {
                            let r: Result<Timestamp, ScheduleError> = Err(e);
                            assert(weekly_run(zone, *self, first, now, run, r));
                            return r;
                        },
                        Ok(next) => {
                            proof {
                                lemma_weekly_slot_later(*offset_of, *reading_of, *self, latest, next);
                            }
                            if now.is_before(&next) {
                                let r: Result<Timestamp, ScheduleError> = Ok(latest);
                                assert(weekly_run(zone, *self, first, now, run, r));
                                return r;
                            }
                            let ghost before = run;
                            proof {
                                run = run.push(next);
                                assert forall|i: int| 1 <= i < run.len() implies (
                                #[trigger] run[i]).at_or_before(now) && next_slot(
                                    zone,
                                    *self,
                                    run[i - 1],
                                    Ok(run[i]),
                                ) by {
                                    if i < before.len() {
                                        assert(run[i] == before[i]);
                                        assert(run[i - 1] == before[i - 1]);
                                    } else {
                                        assert(run[i - 1] == before.last());
                                    }
                                }
                            }
                            latest = next;
                        },
                    }
                }
            },
        }
    }

    /// The next slot after `now`, counted from `first_due`, in the zone that the two
    /// last arguments answer for.
    pub fn next_due_after_with<F: Fn(Timestamp) -> i32, G: Fn(i64) -> LocalTime>(
        &self,
        first_due: Timestamp,
        now: Timestamp,
        offset_of: &F,
        reading_of: &G,
    ) -> (r: Result<Timestamp, ScheduleError>)
        requires
            first_due.wf(),
            now.wf(),
            self.advances(),
            answers_plausibly(*offset_of, *reading_of),
        ensures
            next_due(zone_of(*offset_of, *reading_of), *self, first_due, now, r),
    {
        let first = match self.normalize_due_cursor(first_due) {
            None => {
                return Err(ScheduleError::OutOfRange);
            },
            Some(first) => first,
        };
        if now.is_before(&first) {
            return Ok(first);
        }
        let latest = self.latest_due_at_or_before_with(first, now, offset_of, reading_of);
        assert(latest_due(zone_of(*offset_of, *reading_of), *self, first, now, latest));
        match latest {
            Err(e) => Err(e),
            Ok(t) => self.next_after_with(t, offset_of, reading_of),
        }
    }
}

proof fn lemma_back_in_range(
    zone: Zone,
    days: Seq<Weekday>,
    first: Timestamp,
    from: Timestamp,
    step: int,
    offs: Seq<i32>,
    r: Result<Timestamp, ScheduleError>,
    count: int,
)
    requires
        last_on_days(zone, days, first, from, step, offs, r),
        first.wf(),
        from.wf(),
        from.nanos == first.nanos,
        step > 0,
        count >= 0,
        from.secs == first.secs + count * step,
    ensures
        r matches Ok(t) ==> t.wf() && first.secs <= t.secs <= from.secs && t.nanos == first.nanos,
{
    if let Ok(t) = r {
        let n = offs.len() as int;
        assert((n - 1) * step >= 0) by (nonlinear_arith)
            requires
                n >= 1,
                step > 0,
        ;
        if n >= 2 {
            assert((zone.offset)(steps_back(from, n - 2, step), offs[n - 2]));
            assert(first.secs < from.secs - (n - 2) * step);
            assert(count * step - (n - 1) * step >= 0) by (nonlinear_arith)
                requires
                    count * step > (n - 2) * step,
                    step > 0,
            ;
        } else {
            assert((n - 1) * step == 0) by (nonlinear_arith)
                requires
                    n == 1,
            ;
            assert(count * step >= 0) by (nonlinear_arith)
                requires
                    count >= 0,
                    step > 0,
            ;
        }
    }
}

/// Every answer of `small` is one that `large` may give.
pub open spec fn zone_within(small: Zone, large: Zone) -> bool {
    &&& forall|t: Timestamp, off: i32| #[trigger]
        (small.offset)(t, off) ==> (large.offset)(t, off)
    &&& forall|reading: i64, local: LocalTime| #[trigger]
        (small.reading)(reading, local) ==> (large.reading)(reading, local)
}

/// A zone that may give more answers may give more slots.
pub proof fn lemma_next_slot_within(
    small: Zone,
    large: Zone,
    schedule: AutomationSchedule,
    after: Timestamp,
    r: Result<Timestamp, ScheduleError>,
)
    requires
        zone_within(small, large),
        next_slot(small, schedule, after, r),
    ensures
        next_slot(large, schedule, after, r),
{
    let off = choose|off: i32| #[trigger]
        (small.offset)(after, off) && slot_at_offset(small, schedule, after, off as int, r);
    assert((large.offset)(after, off));
    match schedule {
        AutomationSchedule::Minutely { .. } => {},
        AutomationSchedule::Hourly { interval_hours, byday } => {
            let step = interval_hours * 3_600;
            if byday is Some && !(after.secs + step > MAX_SECS || stepped(after, off as int, step)
                < MIN_SECS) {
                let days = byday->Some_0@;
                let first = stepped(after, off as int, step);
                let offs = choose|offs: Seq<i32>| #[trigger]
                    first_on_days(small, days, first, step, offs, r);
                assert(first_on_days(large, days, first, step, offs, r));
            }
        },
        AutomationSchedule::Weekly { byday, byhour, byminute } => {
            if in_calendar(after.secs + off) {
                let today = day_of(after.secs as int, off as int);
                let answers = choose|answers: Seq<LocalTime>| #[trigger]
                    first_weekly(small, byday@, byhour, byminute, after, today, answers, r);
                assert(first_weekly(large, byday@, byhour, byminute, after, today, answers, r));
            }
        },
    }
    assert(slot_at_offset(large, schedule, after, off as int, r));
}

/// A zone that may give more answers may fast-forward to more slots.
pub proof fn lemma_latest_due_within(
    small: Zone,
    large: Zone,
    schedule: AutomationSchedule,
    first_due: Timestamp,
    now: Timestamp,
    r: Result<Timestamp, ScheduleError>,
)
    requires
        zone_within(small, large),
        latest_due(small, schedule, first_due, now, r),
    ensures
        latest_due(large, schedule, first_due, now, r),
{
    if let Some(first) = normalized_cursor(schedule, first_due) {
        if first.before(now) {
            match schedule {
                AutomationSchedule::Minutely { .. } => {},
                AutomationSchedule::Hourly { interval_hours, byday } => {
                    if let Some(days) = byday {
                        let from = last_step(first, now, interval_hours as int, 3_600);
                        let step = interval_hours * 3_600;
                        let offs = choose|offs: Seq<i32>| #[trigger]
                            last_on_days(small, days@, first, from, step, offs, r);
                        assert(last_on_days(large, days@, first, from, step, offs, r));
                    }
                },
                AutomationSchedule::Weekly { .. } => {
                    let run = choose|run: Seq<Timestamp>| #[trigger]
                        weekly_run(small, schedule, first, now, run, r);
                    assert forall|i: int| 1 <= i < run.len() implies (
                    #[trigger] run[i]).at_or_before(now) && next_slot(
                        large,
                        schedule,
                        run[i - 1],
                        Ok(run[i]),
                    ) by {
                        lemma_next_slot_within(small, large, schedule, run[i - 1], Ok(run[i]));
                    }
                    match r {
                        Ok(latest) => {
                            let next = choose|next: Timestamp|
                                now.before(next) && #[trigger] next_slot(
                                    small,
                                    schedule,
                                    latest,
                                    Ok(next),
                                );
                            lemma_next_slot_within(small, large, schedule, latest, Ok(next));
                        },
                        Err(e) => {
                            lemma_next_slot_within(small, large, schedule, run.last(), Err(e));
                        },
                    }
                    assert(weekly_run(large, schedule, first, now, run, r));
                },
            }
        }
    }
}

/// A zone that may give more answers may give more due times.
pub proof fn lemma_next_due_within(
    small: Zone,
    large: Zone,
    schedule: AutomationSchedule,
    first_due: Timestamp,
    now: Timestamp,
    r: Result<Timestamp, ScheduleError>,
)
    requires
        zone_within(small, large),
        next_due(small, schedule, first_due, now, r),
    ensures
        next_due(large, schedule, first_due, now, r),
{
    if let Some(first) = normalized_cursor(schedule, first_due) {
        if !now.before(first) {
            let latest = choose|latest: Result<Timestamp, ScheduleError>| #[trigger]
                latest_due(small, schedule, first, now, latest) && match latest {
                    Ok(t) => next_slot(small, schedule, t, r),
                    Err(e) => r == Err::<Timestamp, _>(e),
                };
            lemma_latest_due_within(small, large, schedule, first, now, latest);
            if let Ok(t) = latest {
                lemma_next_slot_within(small, large, schedule, t, r);
            }
        }
    }
}

impl AutomationSchedule {
    /// The next slot after `after` in the machine's time zone.
    pub fn next_after(&self, after: Timestamp) -> (r: Result<Timestamp, ScheduleError>)
        requires
            after.wf(),
        ensures
            next_slot(any_zone(), *self, after, r),
    {
        let r = self.next_after_with(after, &local_offset, &local_time);
        proof {
            let zone = zone_of(local_offset, local_time);
            assert(zone_within(zone, any_zone()));
            lemma_next_slot_within(zone, any_zone(), *self, after, r);
        }
        r
    }

    /// The last slot not after `now`, counted from `first_due`, in the machine's
    /// time zone.
    pub fn latest_due_at_or_before(&self, first_due: Timestamp, now: Timestamp) -> (r: Result<
        Timestamp,
        ScheduleError,
    >)
        requires
            first_due.wf(),
            now.wf(),
            self.advances(),
        ensures
            latest_due(any_zone(), *self, first_due, now, r),
            r matches Ok(t) ==> t.wf(),
    {
        let r = self.latest_due_at_or_before_with(first_due, now, &local_offset, &local_time);
        proof {
            let zone = zone_of(local_offset, local_time);
            assert(zone_within(zone, any_zone()));
            lemma_latest_due_within(zone, any_zone(), *self, first_due, now, r);
        }
        r
    }

    /// The next slot after `now`, counted from `first_due`, in the machine's time
    /// zone.
    pub fn next_due_after(&self, first_due: Timestamp, now: Timestamp) -> (r: Result<
        Timestamp,
        ScheduleError,
    >)
        requires
            first_due.wf(),
            now.wf(),
            self.advances(),
        ensures
            next_due(any_zone(), *self, first_due, now, r),
    {
        let r = self.next_due_after_with(first_due, now, &local_offset, &local_time);
        proof {
            let zone = zone_of(local_offset, local_time);
            assert(zone_within(zone, any_zone()));
            lemma_next_due_within(zone, any_zone(), *self, first_due, now, r);
        }
        r
    }
}

} // verus!
