//! Where slots fall on the calendar and on the clock on the wall, in plain arithmetic.
//!
//! Days are counted from 1970-01-01, a Thursday; 1970-01-05 was the first Monday.
use vstd::prelude::*;

use crate::rrule::{AutomationSchedule, ScheduleError};
use crate::schedule::{
    first_on_days, first_weekly, last_on_days, last_step, latest_due, lemma_last_step, next_due,
    next_slot, slot_at_offset, steps_back, weekly_run, whole_periods, Zone,
};
use crate::schedule_laws::{
    lemma_back_index, lemma_weekly_run_rises, next_slot_is_later, normalized_cursor_is_stable,
    plausible,
};
use crate::time::{
    at_second, in_calendar, micros, weekday_of_day, LocalTime, Timestamp, Weekday,
};

verus! {

/// How many days after a Monday a weekday comes.
pub open spec fn days_after_monday(day: Weekday) -> int {
    match day {
        Weekday::Mon => 0,
        Weekday::Tue => 1,
        Weekday::Wed => 2,
        Weekday::Thu => 3,
        Weekday::Fri => 4,
        Weekday::Sat => 5,
        Weekday::Sun => 6,
    }
}

/// The days of the week follow one another, and day 4 is a Monday.
pub proof fn weekdays_follow_the_calendar(day: int)
    ensures
        (day - 4) % 7 == days_after_monday(weekday_of_day(day)),
        weekday_of_day(0) == Weekday::Thu,
        weekday_of_day(day + 7) == weekday_of_day(day),
        forall|w: Weekday| (day - 4) % 7 == #[trigger] days_after_monday(w) ==> weekday_of_day(day) == w,
{
}

/// Whether the clock on the wall in `zone` shows one of `days` at `t`.
pub open spec fn shows_a_day(zone: Zone, days: Seq<Weekday>, t: Timestamp) -> bool {
    exists|off: i32, w: Weekday| #[trigger]
        (zone.offset)(t, off) && #[trigger] days.contains(w) && ((t.secs + off) / 86_400 - 4) % 7
            == days_after_monday(w)
}

/// Whether the clock on the wall in `zone` shows none of `days` at `t`.
pub open spec fn shows_no_day(zone: Zone, days: Seq<Weekday>, t: Timestamp) -> bool {
    exists|off: i32| #[trigger]
        (zone.offset)(t, off) && forall|w: Weekday| #[trigger]
            days.contains(w) ==> ((t.secs + off) / 86_400 - 4) % 7 != days_after_monday(w)
}

/// The candidate `k` steps after the first one: the first lies `step` seconds after `after`,
/// back to the start of the minute on a clock `off` seconds ahead.
pub open spec fn candidate(after: Timestamp, off: i32, step: int, k: int) -> Timestamp {
    Timestamp { secs: (after.secs + step - (after.secs + off) % 60 + k * step) as i64, nanos: 0 }
}

proof fn lemma_shows(zone: Zone, days: Seq<Weekday>, t: Timestamp, off: i32)
    requires
        (zone.offset)(t, off),
    ensures
        days.contains(weekday_of_day((t.secs + off) / 86_400)) ==> shows_a_day(zone, days, t),
        !days.contains(weekday_of_day((t.secs + off) / 86_400)) ==> shows_no_day(zone, days, t),
{
    let day = (t.secs + off) / 86_400;
    weekdays_follow_the_calendar(day);
    if !days.contains(weekday_of_day(day)) {
        assert forall|w: Weekday| #[trigger] days.contains(w) implies (day - 4) % 7
            != days_after_monday(w) by {}
    }
}

/// A schedule of minutes leads as many minutes on, to the start of a minute on the wall.
pub proof fn minutely_slots_lie_the_interval_ahead(
    zone: Zone,
    interval_minutes: u32,
    after: Timestamp,
    t: Timestamp,
)
    requires
        plausible(zone),
        after.wf(),
        next_slot(zone, AutomationSchedule::Minutely { interval_minutes }, after, Ok(t)),
    ensures
        t.nanos == 0,
        after.secs + 60 * interval_minutes - 60 < t.secs <= after.secs + 60 * interval_minutes,
        exists|off: i32| #[trigger] (zone.offset)(after, off) && (t.secs + off) % 60 == 0,
{
    let schedule = AutomationSchedule::Minutely { interval_minutes };
    let off = choose|off: i32| #[trigger]
        (zone.offset)(after, off) && slot_at_offset(zone, schedule, after, off as int, Ok(t));
    assert((t.secs + off) % 60 == 0);
}

/// A schedule of hours without days leads as many hours on, to the start of a minute on the wall.
pub proof fn plain_hourly_slots_lie_the_interval_ahead(
    zone: Zone,
    interval_hours: u32,
    after: Timestamp,
    t: Timestamp,
)
    requires
        plausible(zone),
        after.wf(),
        next_slot(zone, AutomationSchedule::Hourly { interval_hours, byday: None }, after, Ok(t)),
    ensures
        t.nanos == 0,
        after.secs + 3_600 * interval_hours - 60 < t.secs <= after.secs + 3_600 * interval_hours,
        exists|off: i32| #[trigger] (zone.offset)(after, off) && (t.secs + off) % 60 == 0,
{
    let schedule = AutomationSchedule::Hourly { interval_hours, byday: None };
    let off = choose|off: i32| #[trigger]
        (zone.offset)(after, off) && slot_at_offset(zone, schedule, after, off as int, Ok(t));
    assert((t.secs + off) % 60 == 0);
}

/// A step is refused only where it would leave the calendar: past its last second, or, before
/// the start of the minute, into its first minute.
pub proof fn plain_steps_fail_only_at_the_ends_of_the_calendar(
    zone: Zone,
    schedule: AutomationSchedule,
    after: Timestamp,
    e: ScheduleError,
)
    requires
        plausible(zone),
        after.wf(),
        schedule is Minutely || (schedule is Hourly && schedule->Hourly_byday is None),
        next_slot(zone, schedule, after, Err(e)),
    ensures
        e is OutOfRange,
        match schedule {
            AutomationSchedule::Minutely { interval_minutes } => after.secs + 60 * interval_minutes
                > 8_210_266_876_799 || after.secs + 60 * interval_minutes < -8_334_601_228_800 + 60,
            AutomationSchedule::Hourly { interval_hours, .. } => after.secs + 3_600 * interval_hours
                > 8_210_266_876_799 || after.secs + 3_600 * interval_hours < -8_334_601_228_800 + 60,
            AutomationSchedule::Weekly { .. } => false,
        },
{
}

proof fn lemma_hourly_candidates(
    zone: Zone,
    step: int,
    days: Seq<Weekday>,
    after: Timestamp,
    off: i32,
    offs: Seq<i32>,
    r: Result<Timestamp, ScheduleError>,
    k: int,
)
    requires
        after.wf(),
        step >= 60,
        first_on_days(zone, days, after.secs + step - (after.secs + off) % 60, step, offs, r),
        0 <= k < offs.len(),
    ensures
        (zone.offset)(candidate(after, off, step, k), offs[k]),
        candidate(after, off, step, k).secs == after.secs + step - (after.secs + off) % 60 + k
            * step,
        r is Err || k < offs.len() - 1 ==> shows_no_day(
            zone,
            days,
            candidate(after, off, step, k),
        ),
{
    let first = after.secs + step - (after.secs + off) % 60;
    let c = candidate(after, off, step, k);
    assert((zone.offset)(crate::time::at_second(first + k * step), offs[k]));
    assert(0 <= k * step <= (offs.len() - 1) * step) by (nonlinear_arith)
        requires
            0 <= k <= offs.len() - 1,
            step >= 60,
    ;
    lemma_shows(zone, days, c, offs[k]);
}

/// Where an hourly schedule names days, the slot is the first of the candidates at which the
/// clock on the wall shows one of them: the local day, not the day at UTC.
pub proof fn hourly_slots_fall_on_named_local_days(
    zone: Zone,
    interval_hours: u32,
    days: Vec<Weekday>,
    after: Timestamp,
    t: Timestamp,
)
    requires
        plausible(zone),
        interval_hours > 0,
        after.wf(),
        next_slot(
            zone,
            AutomationSchedule::Hourly { interval_hours, byday: Some(days) },
            after,
            Ok(t),
        ),
    ensures
        exists|off: i32, w: Weekday| #[trigger]
            (zone.offset)(t, off) && #[trigger] days@.contains(w) && ((t.secs + off) / 86_400 - 4)
                % 7 == days_after_monday(w),
        exists|off: i32| #[trigger] (zone.offset)(after, off) && (t.secs + off) % 60 == 0,
        t.nanos == 0,
        after.secs < t.secs,
        forall|c: Timestamp|
            c.nanos == 0 && after.secs < c.secs < t.secs && (t.secs - c.secs) % (interval_hours
                * 3_600) == 0 ==> #[trigger] shows_no_day(zone, days@, c),
        exists|off: i32, k: int|
            (zone.offset)(after, off) && 0 <= k < 504 && t == #[trigger] candidate(
                after,
                off,
                interval_hours * 3_600,
                k,
            ),
{
    let schedule = AutomationSchedule::Hourly { interval_hours, byday: Some(days) };
    let step = interval_hours * 3_600;
    let off = choose|off: i32| #[trigger]
        (zone.offset)(after, off) && slot_at_offset(zone, schedule, after, off as int, Ok(t));
    let first = after.secs + step - (after.secs + off) % 60;
    let offs = choose|offs: Seq<i32>| #[trigger]
        first_on_days(zone, days@, first, step, offs, Ok(t));
    let n = offs.len() as int;
    lemma_hourly_candidates(zone, step, days@, after, off, offs, Ok(t), n - 1);
    assert(t == candidate(after, off, step, n - 1));
    lemma_shows(zone, days@, t, offs[n - 1]);
    assert((t.secs + off) % 60 == 0) by {
        let k = n - 1;
        assert(k * step == 60 * (k * (interval_hours * 60))) by (nonlinear_arith)
            requires
                step == interval_hours * 3_600,
        ;
        assert((after.secs + off - (after.secs + off) % 60) % 60 == 0);
        let m = k * (interval_hours * 60);
        assert(t.secs + off == (after.secs + off - (after.secs + off) % 60) + 60 * (interval_hours
            * 60) + 60 * m);
    }
    assert(t.secs > after.secs) by {
        assert((n - 1) * step >= 0) by (nonlinear_arith)
            requires
                n >= 1,
                step > 0,
        ;
    }
    assert forall|c: Timestamp|
        c.nanos == 0 && after.secs < c.secs < t.secs && (t.secs - c.secs) % step == 0 implies
        #[trigger] shows_no_day(zone, days@, c) by {
        let m = (t.secs - c.secs) / step;
        let k = n - 1 - m;
        let gap = t.secs - c.secs;
        assert(gap == m * step) by (nonlinear_arith)
            requires
                gap % step == 0,
                m == gap / step,
                step > 0,
        ;
        assert(m >= 1) by (nonlinear_arith)
            requires
                gap == m * step,
                gap > 0,
                step > 0,
        ;
        assert((n - 1) * step - m * step == k * step) by (nonlinear_arith)
            requires
                k == n - 1 - m,
        ;
        assert(c.secs == first + k * step);
        assert(k >= 0) by (nonlinear_arith)
            requires
                first + k * step > first - step,
                step > 0,
        ;
        lemma_hourly_candidates(zone, step, days@, after, off, offs, Ok(t), k);
        assert(c == candidate(after, off, step, k));
    }
}

/// An hourly schedule with days is given up only after as many candidates as there are hours in
/// three weeks, at all of which the clock shows another day, or at the end of the calendar.
pub proof fn hourly_searches_end_late(
    zone: Zone,
    interval_hours: u32,
    days: Vec<Weekday>,
    after: Timestamp,
    e: ScheduleError,
)
    requires
        plausible(zone),
        interval_hours > 0,
        after.wf(),
        next_slot(
            zone,
            AutomationSchedule::Hourly { interval_hours, byday: Some(days) },
            after,
            Err(e),
        ),
    ensures
        e is NoHourlySlot || e is OutOfRange,
        exists|off: i32, n: int|
            {
                &&& #[trigger] (zone.offset)(after, off)
                &&& 0 <= n <= 504
                &&& forall|k: int|
                    0 <= k < n ==> #[trigger] shows_no_day(
                        zone,
                        days@,
                        candidate(after, off, interval_hours * 3_600, k),
                    )
                &&& e is NoHourlySlot ==> n == 504
                &&& e is OutOfRange ==> after.secs + interval_hours * 3_600 + #[trigger] (n * (
                interval_hours * 3_600)) > 8_210_266_876_799
            },
{
    let schedule = AutomationSchedule::Hourly { interval_hours, byday: Some(days) };
    let step = interval_hours * 3_600;
    let r: Result<Timestamp, ScheduleError> = Err(e);
    let off = choose|off: i32| #[trigger]
        (zone.offset)(after, off) && slot_at_offset(zone, schedule, after, off as int, r);
    let first = after.secs + step - (after.secs + off) % 60;
    if after.secs + step > 8_210_266_876_799 {
        assert(0 * step == 0);
    } else {
        let offs = choose|offs: Seq<i32>| #[trigger]
            first_on_days(zone, days@, first, step, offs, r);
        let n = offs.len() as int;
        assert forall|k: int| 0 <= k < n implies #[trigger] shows_no_day(
            zone,
            days@,
            candidate(after, off, step, k),
        ) by {
            lemma_hourly_candidates(zone, step, days@, after, off, offs, r, k);
        }
        assert(n * step == n * (interval_hours * 3_600));
    }
}

/// What the clock on the wall shows at a time of day is not a slot after `after`: the clock skips
/// it, or it is over by `after`. Where the clock shows it twice, the first time counts.
pub open spec fn is_over(zone: Zone, reading: int, after: Timestamp) -> bool {
    exists|local: LocalTime| #[trigger]
        (zone.reading)(reading as i64, local) && match local {
            LocalTime::Missing => true,
            LocalTime::Single(x) => x.secs * 1_000_000_000 + x.nanos <= after.secs * 1_000_000_000
                + after.nanos,
            LocalTime::Ambiguous(x, _) => x.secs * 1_000_000_000 + x.nanos <= after.secs
                * 1_000_000_000 + after.nanos,
        }
}

/// The slot of a weekly schedule is what the clock on the wall shows as its time of day, on the
/// first of its weekdays, from the local day on, on which that comes after `after`.
pub proof fn weekly_slots_fall_on_named_days_at_their_time(
    zone: Zone,
    byday: Vec<Weekday>,
    byhour: u32,
    byminute: u32,
    after: Timestamp,
    t: Timestamp,
)
    requires
        plausible(zone),
        after.wf(),
        byhour < 24,
        byminute < 60,
        next_slot(zone, AutomationSchedule::Weekly { byday, byhour, byminute }, after, Ok(t)),
    ensures
        exists|off: i32, day: int, local: LocalTime|
            {
                &&& #[trigger] (zone.offset)(after, off)
                &&& 0 <= day - (after.secs + off) / 86_400 < 15
                &&& byday@.contains(#[trigger] weekday_of_day(day))
                &&& exists|w: Weekday| #[trigger]
                    byday@.contains(w) && (day - 4) % 7 == days_after_monday(w)
                &&& #[trigger] (zone.reading)(
                    (day * 86_400 + byhour * 3_600 + byminute * 60) as i64,
                    local,
                )
                &&& match local {
                    LocalTime::Missing => false,
                    LocalTime::Single(x) => x == t,
                    LocalTime::Ambiguous(x, _) => x == t,
                }
                &&& after.secs * 1_000_000_000 + after.nanos < t.secs * 1_000_000_000 + t.nanos
                &&& forall|d: int, w: Weekday|
                    (after.secs + off) / 86_400 <= d < day && #[trigger] byday@.contains(w) && (d
                        - 4) % 7 == days_after_monday(w) ==> #[trigger] is_over(
                        zone,
                        d * 86_400 + byhour * 3_600 + byminute * 60,
                        after,
                    )
            },
{
    let schedule = AutomationSchedule::Weekly { byday, byhour, byminute };
    let r: Result<Timestamp, ScheduleError> = Ok(t);
    let off = choose|off: i32| #[trigger]
        (zone.offset)(after, off) && slot_at_offset(zone, schedule, after, off as int, r);
    let today = (after.secs + off) / 86_400;
    let answers = choose|answers: Seq<LocalTime>| #[trigger]
        first_weekly(zone, byday@, byhour, byminute, after, today, answers, r);
    let n = answers.len() as int;
    let day = today + n - 1;
    let local = answers[n - 1];
    weekdays_follow_the_calendar(day);
    assert(byday@.contains(weekday_of_day(day)));
    assert((zone.reading)((day * 86_400 + byhour * 3_600 + byminute * 60) as i64, local));
    assert forall|d: int, w: Weekday|
        today <= d < day && #[trigger] byday@.contains(w) && (d - 4) % 7 == days_after_monday(
            w,
        ) implies #[trigger] is_over(
        zone,
        d * 86_400 + byhour * 3_600 + byminute * 60,
        after,
    ) by {
        weekdays_follow_the_calendar(d);
        lemma_day_is_over(
            zone,
            byday@,
            byhour,
            byminute,
            after,
            today,
            answers,
            r,
            d - today,
        );
    }
}

proof fn lemma_day_is_over(
    zone: Zone,
    days: Seq<Weekday>,
    hour: u32,
    minute: u32,
    after: Timestamp,
    today: int,
    answers: Seq<LocalTime>,
    r: Result<Timestamp, ScheduleError>,
    k: int,
)
    requires
        plausible(zone),
        after.wf(),
        hour < 24,
        minute < 60,
        first_weekly(zone, days, hour, minute, after, today, answers, r),
        0 <= k < answers.len(),
        r is Ok ==> k < answers.len() - 1,
        days.contains(weekday_of_day(today + k)),
    ensures
        is_over(zone, (today + k) * 86_400 + hour * 3_600 + minute * 60, after),
{
    let reading = (today + k) * 86_400 + hour * 3_600 + minute * 60;
    let local = answers[k];
    assert((zone.reading)(reading as i64, local));
}

/// A weekly schedule is given up only after two weeks and a day without a slot, or at the end of
/// the calendar.
pub proof fn weekly_searches_end_late(
    zone: Zone,
    byday: Vec<Weekday>,
    byhour: u32,
    byminute: u32,
    after: Timestamp,
    e: ScheduleError,
)
    requires
        plausible(zone),
        after.wf(),
        byhour < 24,
        byminute < 60,
        next_slot(zone, AutomationSchedule::Weekly { byday, byhour, byminute }, after, Err(e)),
    ensures
        e is NoWeeklySlot || e is OutOfRange,
        exists|off: i32|
            {
                &&& #[trigger] (zone.offset)(after, off)
                &&& e is OutOfRange ==> {
                    ||| (after.secs + off) / 86_400 + 15 > 95_026_236
                    ||| after.secs + off < -8_334_601_228_800
                    ||| after.secs + off > 8_210_266_876_799
                }
                &&& e is NoWeeklySlot ==> forall|d: int, w: Weekday|
                    0 <= d - (after.secs + off) / 86_400 < 15 && #[trigger] byday@.contains(w) && (d
                        - 4) % 7 == days_after_monday(w) ==> #[trigger] is_over(
                        zone,
                        d * 86_400 + byhour * 3_600 + byminute * 60,
                        after,
                    )
            },
{
    let schedule = AutomationSchedule::Weekly { byday, byhour, byminute };
    let r: Result<Timestamp, ScheduleError> = Err(e);
    let off = choose|off: i32| #[trigger]
        (zone.offset)(after, off) && slot_at_offset(zone, schedule, after, off as int, r);
    let today = (after.secs + off) / 86_400;
    if -8_334_601_228_800 <= after.secs + off <= 8_210_266_876_799 {
        let answers = choose|answers: Seq<LocalTime>| #[trigger]
            first_weekly(zone, byday@, byhour, byminute, after, today, answers, r);
        if e is NoWeeklySlot {
            assert forall|d: int, w: Weekday|
                0 <= d - today < 15 && #[trigger] byday@.contains(w) && (d - 4) % 7
                    == days_after_monday(w) implies #[trigger] is_over(
                zone,
                d * 86_400 + byhour * 3_600 + byminute * 60,
                after,
            ) by {
                weekdays_follow_the_calendar(d);
                lemma_day_is_over(
                    zone,
                    byday@,
                    byhour,
                    byminute,
                    after,
                    today,
                    answers,
                    r,
                    d - today,
                );
            }
        }
    }
}

/// A fast-forward of a schedule of minutes: the first due time is brought up to the start of a
/// minute, and the slot is the last one, whole intervals later, that `now` has reached.
pub proof fn minutely_fast_forward_leads_to_the_last_slot_reached(
    zone: Zone,
    interval_minutes: u32,
    first_due: Timestamp,
    now: Timestamp,
    t: Timestamp,
)
    requires
        interval_minutes > 0,
        first_due.wf(),
        now.wf(),
        latest_due(zone, AutomationSchedule::Minutely { interval_minutes }, first_due, now, Ok(t)),
    ensures
        exists|first: Timestamp|
            {
                &&& #[trigger] first.wf()
                &&& first.nanos == 0 && first.secs as int % 60 == 0
                &&& first_due.secs * 1_000_000_000 + first_due.nanos <= first.secs * 1_000_000_000
                &&& first.secs * 1_000_000_000 < first_due.secs * 1_000_000_000 + first_due.nanos
                    + 60_000_000_000
                &&& first.secs * 1_000_000_000 >= now.secs * 1_000_000_000 + now.nanos ==> t
                    == first
                &&& first.secs * 1_000_000_000 < now.secs * 1_000_000_000 + now.nanos ==> {
                    &&& t.nanos == 0
                    &&& t.secs >= first.secs
                    &&& (t.secs - first.secs) % (60 * interval_minutes) == 0
                    &&& t.secs * 1_000_000_000 <= now.secs * 1_000_000_000 + now.nanos
                    &&& now.secs * 1_000_000_000 + now.nanos < (t.secs + 60 * interval_minutes)
                        * 1_000_000_000
                }
            },
{
    let schedule = AutomationSchedule::Minutely { interval_minutes };
    let first = crate::schedule::normalized_cursor(schedule, first_due)->Some_0;
    normalized_cursor_is_stable(schedule, first_due, first);
    assert(first.wf());
    assert(first.nanos == 0 && first.secs as int % 60 == 0);
    if first.before(now) {
        lemma_last_step(first, now, interval_minutes as int, 60);
        let count = whole_periods(first, now, 60) / interval_minutes as int;
        assert((count * (60 * interval_minutes)) % (60 * interval_minutes) == 0)
            by (nonlinear_arith)
            requires
                interval_minutes > 0,
        ;
        assert(count * (interval_minutes * 60) == count * (60 * interval_minutes))
            by (nonlinear_arith);
    }
}

/// A fast-forward of a schedule of hours without days leads to the last slot, whole intervals
/// after the first due time, that `now` has reached.
pub proof fn plain_hourly_fast_forward_leads_to_the_last_slot_reached(
    zone: Zone,
    interval_hours: u32,
    first_due: Timestamp,
    now: Timestamp,
    t: Timestamp,
)
    requires
        interval_hours > 0,
        first_due.wf(),
        now.wf(),
        latest_due(
            zone,
            AutomationSchedule::Hourly { interval_hours, byday: None },
            first_due,
            now,
            Ok(t),
        ),
    ensures
        first_due.secs * 1_000_000_000 + first_due.nanos >= now.secs * 1_000_000_000 + now.nanos
            ==> t == first_due,
        first_due.secs * 1_000_000_000 + first_due.nanos < now.secs * 1_000_000_000 + now.nanos
            ==> {
            &&& t.nanos == first_due.nanos
            &&& t.secs >= first_due.secs
            &&& (t.secs - first_due.secs) % (3_600 * interval_hours) == 0
            &&& t.secs * 1_000_000_000 + t.nanos <= now.secs * 1_000_000_000 + now.nanos
            &&& now.secs * 1_000_000_000 + now.nanos < (t.secs + 3_600 * interval_hours)
                * 1_000_000_000 + t.nanos
        },
{
    if first_due.before(now) {
        lemma_last_step(first_due, now, interval_hours as int, 3_600);
        let count = whole_periods(first_due, now, 3_600) / interval_hours as int;
        assert((count * (3_600 * interval_hours)) % (3_600 * interval_hours) == 0)
            by (nonlinear_arith)
            requires
                interval_hours > 0,
        ;
        assert(count * (interval_hours * 3_600) == count * (3_600 * interval_hours))
            by (nonlinear_arith);
    }
}

/// A fast-forward of an hourly schedule with days leads to the last of the candidates that `now`
/// has reached at which the clock on the wall shows one of the days, or stays at the first due
/// time where there is none.
#[verifier::spinoff_prover]
pub proof fn hourly_fast_forward_falls_on_named_local_days(
    zone: Zone,
    interval_hours: u32,
    days: Vec<Weekday>,
    first_due: Timestamp,
    now: Timestamp,
    t: Timestamp,
)
    requires
        interval_hours > 0,
        first_due.wf(),
        now.wf(),
        latest_due(
            zone,
            AutomationSchedule::Hourly { interval_hours, byday: Some(days) },
            first_due,
            now,
            Ok(t),
        ),
    ensures
        t == first_due || exists|off: i32, w: Weekday| #[trigger]
            (zone.offset)(t, off) && #[trigger] days@.contains(w) && ((t.secs + off) / 86_400 - 4)
                % 7 == days_after_monday(w),
        t.nanos == first_due.nanos,
        t.secs >= first_due.secs,
        (t.secs - first_due.secs) % (interval_hours * 3_600) == 0,
        t == first_due || t.secs * 1_000_000_000 + t.nanos <= now.secs * 1_000_000_000 + now.nanos,
        forall|c: Timestamp|
            c.nanos == first_due.nanos && t.secs < c.secs && c.secs * 1_000_000_000 + c.nanos
                <= now.secs * 1_000_000_000 + now.nanos && (c.secs - first_due.secs) % (
            interval_hours * 3_600) == 0 ==> #[trigger] shows_no_day(zone, days@, c),
{
    let step = interval_hours * 3_600;
    if first_due.before(now) {
        lemma_last_step(first_due, now, interval_hours as int, 3_600);
        let from = last_step(first_due, now, interval_hours as int, 3_600);
        let count = whole_periods(first_due, now, 3_600) / interval_hours as int;
        let offs = choose|offs: Seq<i32>| #[trigger]
            last_on_days(zone, days@, first_due, from, step, offs, Ok(t));
        lemma_back_index(zone, days@, first_due, from, step, offs, t, count);
        let n = offs.len() as int;
        assert((count - (n - 1)) * step == count * step - (n - 1) * step) by (nonlinear_arith);
        assert(((count - (n - 1)) * step) % step == 0) by (nonlinear_arith)
            requires
                step > 0,
        ;
        assert((zone.offset)(steps_back(from, n - 1, step), offs[n - 1]));
        lemma_shows(zone, days@, steps_back(from, n - 1, step), offs[n - 1]);
        assert forall|c: Timestamp|
            c.nanos == first_due.nanos && t.secs < c.secs && c.secs * 1_000_000_000 + c.nanos
                <= now.secs * 1_000_000_000 + now.nanos && (c.secs - first_due.secs) % step
                == 0 implies #[trigger] shows_no_day(zone, days@, c) by {
            let gap = c.secs - first_due.secs;
            let j = gap / step;
            assert(gap == j * step) by (nonlinear_arith)
                requires
                    gap % step == 0,
                    j == gap / step,
                    step > 0,
            ;
            let k = count - j;
            assert(c.secs < from.secs + step);
            assert(k >= 0) by (nonlinear_arith)
                requires
                    j * step < count * step + step,
                    k == count - j,
                    step > 0,
            ;
            assert(k < n - 1) by (nonlinear_arith)
                requires
                    j * step > (count - (n - 1)) * step,
                    k == count - j,
                    step > 0,
            ;
            assert(c.secs == from.secs - k * step) by (nonlinear_arith)
                requires
                    c.secs == first_due.secs + j * step,
                    from.secs == first_due.secs + count * step,
                    k == count - j,
            ;
            assert((zone.offset)(steps_back(from, k, step), offs[k]));
            assert(c == steps_back(from, k, step));
            lemma_shows(zone, days@, c, offs[k]);
        }
    } else {
        assert(0int % step == 0) by (nonlinear_arith)
            requires
                step > 0,
        ;
    }
}

/// A fast-forward of a weekly schedule leads to the first due time or to a later slot; it is not
/// in the future unless the first due time is, and the slot after it is.
pub proof fn weekly_fast_forward_leads_to_the_last_slot_reached(
    zone: Zone,
    schedule: AutomationSchedule,
    first_due: Timestamp,
    now: Timestamp,
    t: Timestamp,
)
    requires
        plausible(zone),
        schedule is Weekly,
        first_due.wf(),
        now.wf(),
        latest_due(zone, schedule, first_due, now, Ok(t)),
    ensures
        first_due.secs * 1_000_000_000 + first_due.nanos >= now.secs * 1_000_000_000 + now.nanos
            ==> t == first_due,
        first_due.secs * 1_000_000_000 + first_due.nanos < now.secs * 1_000_000_000 + now.nanos
            ==> {
            &&& t.secs * 1_000_000_000 + t.nanos <= now.secs * 1_000_000_000 + now.nanos
            &&& t == first_due || exists|earlier: Timestamp| #[trigger]
                next_slot(zone, schedule, earlier, Ok(t))
            &&& exists|later: Timestamp|
                #![trigger next_slot(zone, schedule, t, Ok(later))]
                next_slot(zone, schedule, t, Ok(later)) && now.secs * 1_000_000_000 + now.nanos
                    < later.secs * 1_000_000_000 + later.nanos
        },
{
    if first_due.before(now) {
        let run = choose|run: Seq<Timestamp>| #[trigger]
            weekly_run(zone, schedule, first_due, now, run, Ok(t));
        let n = run.len() - 1;
        lemma_weekly_run_rises(zone, schedule, first_due, now, run, t, n);
        if n > 0 {
            assert(next_slot(zone, schedule, run[n - 1], Ok(run[n])));
        }
        let later = choose|later: Timestamp|
            now.before(later) && #[trigger] next_slot(zone, schedule, t, Ok(later));
        next_slot_is_later(zone, schedule, t, later);
    }
}

/// What comes next after `now` is the first due time where that is still ahead; else it is the
/// slot that follows the one a fast-forward leads to.
pub proof fn next_due_follows_the_fast_forward(
    zone: Zone,
    schedule: AutomationSchedule,
    first_due: Timestamp,
    now: Timestamp,
    t: Timestamp,
)
    requires
        schedule !is Minutely || (first_due.secs as int % 60 == 0 && first_due.nanos == 0),
        first_due.wf(),
        now.wf(),
        next_due(zone, schedule, first_due, now, Ok(t)),
    ensures
        first_due.secs * 1_000_000_000 + first_due.nanos > now.secs * 1_000_000_000 + now.nanos
            ==> t == first_due,
        first_due.secs * 1_000_000_000 + first_due.nanos <= now.secs * 1_000_000_000 + now.nanos
            ==> exists|latest: Timestamp|
            {
                &&& #[trigger] latest_due(zone, schedule, first_due, now, Ok(latest))
                &&& next_slot(zone, schedule, latest, Ok(t))
            },
{
    if !now.before(first_due) {
        let latest = choose|latest: Result<Timestamp, ScheduleError>| #[trigger]
            latest_due(zone, schedule, first_due, now, latest) && match latest {
                Ok(x) => next_slot(zone, schedule, x, Ok(t)),
                Err(e) => Ok::<Timestamp, ScheduleError>(t) == Err::<Timestamp, _>(e),
            };
        assert(latest is Ok);
        assert(latest_due(zone, schedule, first_due, now, Ok(latest->Ok_0)));
    }
}

/// Instants are ordered by their seconds and then by their nanoseconds, that is by the nanoseconds
/// since the epoch; whole microseconds are counted towards the past.
pub proof fn instants_are_counted_in_nanoseconds(a: Timestamp, b: Timestamp)
    requires
        a.wf(),
        b.wf(),
    ensures
        -8_334_601_228_800 <= a.secs <= 8_210_266_876_799 && a.nanos < 1_000_000_000,
        a.ns() == a.secs * 1_000_000_000 + a.nanos,
        a.before(b) <==> a.secs * 1_000_000_000 + a.nanos < b.secs * 1_000_000_000 + b.nanos,
        a.at_or_before(b) <==> a.secs * 1_000_000_000 + a.nanos <= b.secs * 1_000_000_000 + b.nanos,
        micros(a) * 1_000 <= a.secs * 1_000_000_000 + a.nanos < (micros(a) + 1) * 1_000,
        at_second(a.secs as int) == (Timestamp { secs: a.secs, nanos: 0 }),
        in_calendar(a.secs as int),
{
}

/// A fast-forward of an hourly schedule with days is given up only where as many candidates as there
/// are hours in three weeks, back from the last that `now` has reached, show another day and lie
/// after the first due time.
#[verifier::spinoff_prover]
pub proof fn hourly_fast_forwards_end_late(
    zone: Zone,
    interval_hours: u32,
    days: Vec<Weekday>,
    first_due: Timestamp,
    now: Timestamp,
    e: ScheduleError,
)
    requires
        interval_hours > 0,
        first_due.wf(),
        now.wf(),
        latest_due(
            zone,
            AutomationSchedule::Hourly { interval_hours, byday: Some(days) },
            first_due,
            now,
            Err(e),
        ),
    ensures
        e is NoHourlyFastForward,
        exists|from: Timestamp|
            {
                &&& #[trigger] from.wf()
                &&& from.nanos == first_due.nanos
                &&& (from.secs - first_due.secs) % (interval_hours * 3_600) == 0
                &&& from.ns() <= now.ns()
                &&& now.ns() < from.ns() + interval_hours * 3_600 * 1_000_000_000
                &&& first_due.secs < from.secs - 503 * (interval_hours * 3_600)
                &&& forall|k: int|
                    0 <= k < 504 ==> #[trigger] shows_no_day(
                        zone,
                        days@,
                        Timestamp {
                            secs: (from.secs - k * (interval_hours * 3_600)) as i64,
                            nanos: from.nanos,
                        },
                    )
            },
{
    let step = interval_hours * 3_600;
    assert(first_due.before(now));
    lemma_last_step(first_due, now, interval_hours as int, 3_600);
    let from = last_step(first_due, now, interval_hours as int, 3_600);
    let count = whole_periods(first_due, now, 3_600) / interval_hours as int;
    assert((count * step) % step == 0) by (nonlinear_arith)
        requires
            step > 0,
    ;
    let r: Result<Timestamp, ScheduleError> = Err(e);
    let offs = choose|offs: Seq<i32>| #[trigger]
        last_on_days(zone, days@, first_due, from, step, offs, r);
    assert(from.wf());
    assert forall|k: int| 0 <= k < 504 implies #[trigger] shows_no_day(
        zone,
        days@,
        Timestamp { secs: (from.secs - k * step) as i64, nanos: from.nanos },
    ) by {
        let c = steps_back(from, k, step);
        assert((zone.offset)(c, offs[k]));
        assert(0 <= k * step <= 503 * step) by (nonlinear_arith)
            requires
                0 <= k <= 503,
                step > 0,
        ;
        lemma_shows(zone, days@, c, offs[k]);
    }
}

} // verus!
