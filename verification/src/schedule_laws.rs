//! What holds of every schedule.
use vstd::prelude::*;
use vstd::string::*;

use crate::rrule::{
    byday_days, byday_meaning, rrule_meaning, AutomationSchedule, ScheduleError,
};
use crate::schedule::{
    first_on_days, first_weekly, last_on_days, last_step, latest_due, lemma_last_step, names_day,
    next_due, next_slot, normalized_cursor, on_days, reading_on, resolved, slot_at_offset,
    steps_back, stepped, weekly_run, whole_periods, Zone,
};
use crate::text::split_on;
use crate::time::{
    at_second, day_of, in_calendar, plausible_local_time, second_of_minute, LocalTime, Timestamp,
    Weekday, MAX_DAY, MAX_SECS, MIN_SECS,
};

verus! {

/// A zone whose answers are plausible: offsets of under a day, and readings that
/// stand for instants less than a day away.
pub open spec fn plausible(zone: Zone) -> bool {
    &&& forall|t: Timestamp, off: i32| #[trigger] (zone.offset)(t, off) ==> -86_400 < off < 86_400
    &&& forall|reading: i64, local: LocalTime| #[trigger]
        (zone.reading)(reading, local) ==> plausible_local_time(reading as int, local)
}

/// A zone that gives one answer to one question.
pub open spec fn steady(zone: Zone) -> bool {
    &&& forall|t: Timestamp, a: i32, b: i32| #[trigger]
        (zone.offset)(t, a) && #[trigger] (zone.offset)(t, b) ==> a == b
    &&& forall|reading: i64, a: LocalTime, b: LocalTime| #[trigger]
        (zone.reading)(reading, a) && #[trigger] (zone.reading)(reading, b) ==> a == b
}

/// A zone whose offsets are whole minutes.
pub open spec fn whole_minutes(zone: Zone) -> bool {
    forall|t: Timestamp, off: i32| #[trigger] (zone.offset)(t, off) ==> off as int % 60 == 0
}

/// A schedule as the rules allow it: an interval of one or more; at least one
/// day, no day twice, and a time of day for a weekly schedule.
pub open spec fn well_formed(schedule: AutomationSchedule) -> bool {
    match schedule {
        AutomationSchedule::Minutely { interval_minutes } => interval_minutes > 0,
        AutomationSchedule::Hourly { interval_hours, byday } => interval_hours > 0 && (
        byday matches Some(days) ==> days@.len() > 0 && days@.no_duplicates()),
        AutomationSchedule::Weekly { byday, byhour, byminute } => byday@.len() > 0
            && byday@.no_duplicates() && byhour < 24 && byminute < 60,
    }
}

proof fn lemma_byday_days(tokens: Seq<Seq<char>>)
    ensures
        byday_days(tokens) matches Ok(days) ==> days.no_duplicates() && (tokens.len() > 0
            ==> days.len() > 0),
    decreases tokens.len(),
{
    if tokens.len() > 0 {
        lemma_byday_days(tokens.drop_last());
        if let Ok(days) = byday_days(tokens) {
            let before = byday_days(tokens.drop_last())->Ok_0;
            if days.len() == 0 {
                assert(before.len() == 0);
            }
        }
    }
}

proof fn lemma_byday_meaning(value: Seq<char>)
    ensures
        byday_meaning(value) matches Ok(days) ==> days.no_duplicates() && days.len() > 0,
{
    lemma_byday_days(split_on(value, ','));
}

/// A rule that is accepted gives a well-formed schedule, which advances.
pub proof fn accepted_rules_are_well_formed(rrule: Seq<char>, schedule: AutomationSchedule)
    requires
        rrule_meaning(rrule, Ok(schedule)),
    ensures
        well_formed(schedule),
        schedule.advances(),
{
    let fields = crate::rrule::rrule_fields(split_on(rrule, ';'))->Ok_0;
    lemma_byday_meaning(fields["BYDAY"@]);
}

/// The next slot lies after the instant that was asked about, on a whole second,
/// inside the calendar.
#[verifier::spinoff_prover]
pub proof fn next_slot_is_later(
    zone: Zone,
    schedule: AutomationSchedule,
    after: Timestamp,
    t: Timestamp,
)
    requires
        plausible(zone),
        schedule.advances(),
        after.wf(),
        next_slot(zone, schedule, after, Ok(t)),
    ensures
        t.wf(),
        t.nanos == 0,
        after.before(t),
{
    let off = choose|off: i32| #[trigger]
        (zone.offset)(after, off) && slot_at_offset(zone, schedule, after, off as int, Ok(t));
    match schedule {
        AutomationSchedule::Minutely { .. } => {},
        AutomationSchedule::Hourly { interval_hours, byday } => {
            if let Some(days) = byday {
                let step = interval_hours * 3_600;
                let first = stepped(after, off as int, step);
                let offs = choose|offs: Seq<i32>| #[trigger]
                    first_on_days(zone, days@, first, step, offs, Ok(t));
                let n = offs.len() as int;
                assert((n - 1) * step >= 0) by (nonlinear_arith)
                    requires
                        n > 0,
                        step > 0,
                ;
            }
        },
        AutomationSchedule::Weekly { byday, byhour, byminute } => {
            let today = day_of(after.secs as int, off as int);
            let answers = choose|answers: Seq<LocalTime>| #[trigger]
                first_weekly(zone, byday@, byhour, byminute, after, today, answers, Ok(t));
            let n = answers.len() as int;
            let reading = reading_on(today + n - 1, byhour, byminute) as i64;
            assert((zone.reading)(reading, answers[n - 1]));
            assert(plausible_local_time(reading as int, answers[n - 1]));
        },
    }
}

/// Whole minutes on from the start of a minute another minute starts.
proof fn lemma_steps_start_a_minute(secs: int, off: int, minutes: int)
    ensures
        second_of_minute(secs + 60 * minutes - second_of_minute(secs, off), off) == 0,
{
}

/// A minutely or hourly slot starts a minute of the clock that the zone showed at
/// the instant that was asked about.
#[verifier::spinoff_prover]
pub proof fn stepped_slot_starts_a_minute(
    zone: Zone,
    schedule: AutomationSchedule,
    after: Timestamp,
    t: Timestamp,
)
    requires
        plausible(zone),
        schedule !is Weekly,
        schedule.advances(),
        after.wf(),
        next_slot(zone, schedule, after, Ok(t)),
    ensures
        exists|off: i32| #[trigger]
            (zone.offset)(after, off) && second_of_minute(t.secs as int, off as int) == 0,
        t.nanos == 0,
{
    let off = choose|off: i32| #[trigger]
        (zone.offset)(after, off) && slot_at_offset(zone, schedule, after, off as int, Ok(t));
    next_slot_is_later(zone, schedule, after, t);
    let minutes = match schedule {
        AutomationSchedule::Minutely { interval_minutes } => interval_minutes as int,
        AutomationSchedule::Hourly { interval_hours, byday } => {
            let step = interval_hours * 3_600;
            match byday {
                None => 60 * interval_hours,
                Some(days) => {
                    let first = stepped(after, off as int, step);
                    let offs = choose|offs: Seq<i32>| #[trigger]
                        first_on_days(zone, days@, first, step, offs, Ok(t));
                    let n = offs.len() as int;
                    let k = (n - 1) * interval_hours as int;
                    assert((n - 1) * step == 3_600 * k) by (nonlinear_arith)
                        requires
                            step == interval_hours * 3_600,
                            k == (n - 1) * interval_hours as int,
                    ;
                    60 * interval_hours + 60 * k
                },
            }
        },
        AutomationSchedule::Weekly { .. } => 0,
    };
    assert(t.secs == after.secs + 60 * minutes - second_of_minute(after.secs as int, off as int));
    lemma_steps_start_a_minute(after.secs as int, off as int, minutes);
}

/// Where an hourly schedule names days, the zone shows one of them at the slot.
pub proof fn hourly_slot_falls_on_its_days(
    zone: Zone,
    schedule: AutomationSchedule,
    after: Timestamp,
    t: Timestamp,
)
    requires
        plausible(zone),
        schedule.advances(),
        after.wf(),
        next_slot(zone, schedule, after, Ok(t)),
        schedule matches AutomationSchedule::Hourly { byday: Some(_), .. },
    ensures
        exists|off: i32| #[trigger]
            (zone.offset)(t, off) && on_days(
                schedule->Hourly_byday->Some_0@,
                t.secs as int,
                off as int,
            ),
{
    let days = schedule->Hourly_byday->Some_0@;
    let step = schedule->interval_hours * 3_600;
    let off = choose|off: i32| #[trigger]
        (zone.offset)(after, off) && slot_at_offset(zone, schedule, after, off as int, Ok(t));
    let first = stepped(after, off as int, step);
    let offs = choose|offs: Seq<i32>| #[trigger]
        first_on_days(zone, days, first, step, offs, Ok(t));
    let n = offs.len() as int;
    next_slot_is_later(zone, schedule, after, t);
    assert((n - 1) * step >= 0) by (nonlinear_arith)
        requires
            n > 0,
            step > 0,
    ;
    assert((zone.offset)(at_second(first + (n - 1) * step), offs[n - 1]));
}

/// A weekly slot is the instant that the zone gives for the schedule's time of day
/// on one of its days.
pub proof fn weekly_slot_is_on_the_wall_clock(
    zone: Zone,
    schedule: AutomationSchedule,
    after: Timestamp,
    t: Timestamp,
)
    requires
        next_slot(zone, schedule, after, Ok(t)),
        schedule is Weekly,
    ensures
        exists|day: int, local: LocalTime| #[trigger]
            names_day(schedule->Weekly_byday@, schedule->byhour, schedule->byminute, day)
                && resolved(local) == Some(t) && #[trigger] (zone.reading)(
                reading_on(day, schedule->byhour, schedule->byminute) as i64,
                local,
            ),
{
    let (days, hour, minute) = (schedule->Weekly_byday@, schedule->byhour, schedule->byminute);
    let off = choose|off: i32| #[trigger]
        (zone.offset)(after, off) && slot_at_offset(zone, schedule, after, off as int, Ok(t));
    let today = day_of(after.secs as int, off as int);
    let answers = choose|answers: Seq<LocalTime>| #[trigger]
        first_weekly(zone, days, hour, minute, after, today, answers, Ok(t));
    let n = answers.len() as int;
    assert(names_day(days, hour, minute, today + n - 1));
    assert((zone.reading)(reading_on(today + n - 1, hour, minute) as i64, answers[n - 1]));
}

proof fn lemma_one_hourly_slot(
    zone: Zone,
    days: Seq<Weekday>,
    first: int,
    step: int,
    x: Seq<i32>,
    a: Result<Timestamp, ScheduleError>,
    y: Seq<i32>,
    b: Result<Timestamp, ScheduleError>,
)
    requires
        steady(zone),
        step >= 0,
        x.len() <= y.len(),
        first_on_days(zone, days, first, step, x, a),
        first_on_days(zone, days, first, step, y, b),
    ensures
        a == b,
{
    let n = x.len() as int;
    let m = y.len() as int;
    assert forall|k: int| 0 <= k < n implies #[trigger] x[k] == y[k] by {
        assert((zone.offset)(at_second(first + k * step), x[k]));
        assert((zone.offset)(at_second(first + k * step), y[k]));
    }
    if n < m {
        assert(n * step <= (m - 1) * step) by (nonlinear_arith)
            requires
                n <= m - 1,
                step >= 0,
        ;
        if n > 0 {
            assert(!on_days(days, first + (n - 1) * step, y[n - 1] as int));
        }
    } else if n > 0 {
        assert(x[n - 1] == y[n - 1]);
    }
}

proof fn lemma_one_weekly_slot(
    zone: Zone,
    days: Seq<Weekday>,
    hour: u32,
    minute: u32,
    after: Timestamp,
    today: int,
    x: Seq<LocalTime>,
    a: Result<Timestamp, ScheduleError>,
    y: Seq<LocalTime>,
    b: Result<Timestamp, ScheduleError>,
)
    requires
        steady(zone),
        x.len() <= y.len(),
        first_weekly(zone, days, hour, minute, after, today, x, a),
        first_weekly(zone, days, hour, minute, after, today, y, b),
    ensures
        a == b,
{
    let n = x.len() as int;
    let m = y.len() as int;
    assert forall|k: int| 0 <= k < n && names_day(days, hour, minute, today + k) implies
        #[trigger] x[k] == y[k] by {
        assert((zone.reading)(reading_on(today + k, hour, minute) as i64, x[k]));
        assert((zone.reading)(reading_on(today + k, hour, minute) as i64, y[k]));
    }
    if n < m {
        assert(today + n <= MAX_DAY) by {
            let _ = y[n];
        }
    }
    if n > 0 && names_day(days, hour, minute, today + n - 1) {
        assert(x[n - 1] == y[n - 1]);
    }
}

/// In a zone that gives one answer to one question a schedule has one next slot after an
/// instant, or none for one reason.
pub proof fn a_schedule_has_one_next_slot(
    zone: Zone,
    schedule: AutomationSchedule,
    after: Timestamp,
    a: Result<Timestamp, ScheduleError>,
    b: Result<Timestamp, ScheduleError>,
)
    requires
        steady(zone),
        next_slot(zone, schedule, after, a),
        next_slot(zone, schedule, after, b),
    ensures
        a == b,
{
    let off = choose|off: i32| #[trigger]
        (zone.offset)(after, off) && slot_at_offset(zone, schedule, after, off as int, a);
    let off2 = choose|off: i32| #[trigger]
        (zone.offset)(after, off) && slot_at_offset(zone, schedule, after, off as int, b);
    assert(off == off2);
    match schedule {
        AutomationSchedule::Minutely { .. } => {},
        AutomationSchedule::Hourly { interval_hours, byday } => {
            if let Some(days) = byday {
                let step = interval_hours * 3_600;
                let first = stepped(after, off as int, step);
                if !(after.secs + step > MAX_SECS || first < MIN_SECS) {
                    let x = choose|offs: Seq<i32>| #[trigger]
                        first_on_days(zone, days@, first, step, offs, a);
                    let y = choose|offs: Seq<i32>| #[trigger]
                        first_on_days(zone, days@, first, step, offs, b);
                    if x.len() <= y.len() {
                        lemma_one_hourly_slot(zone, days@, first, step, x, a, y, b);
                    } else {
                        lemma_one_hourly_slot(zone, days@, first, step, y, b, x, a);
                    }
                }
            }
        },
        AutomationSchedule::Weekly { byday, byhour, byminute } => {
            if in_calendar(after.secs + off as int) {
                let today = day_of(after.secs as int, off as int);
                let x = choose|answers: Seq<LocalTime>| #[trigger]
                    first_weekly(zone, byday@, byhour, byminute, after, today, answers, a);
                let y = choose|answers: Seq<LocalTime>| #[trigger]
                    first_weekly(zone, byday@, byhour, byminute, after, today, answers, b);
                if x.len() <= y.len() {
                    lemma_one_weekly_slot(
                        zone, byday@, byhour, byminute, after, today, x, a, y, b,
                    );
                } else {
                    lemma_one_weekly_slot(
                        zone, byday@, byhour, byminute, after, today, y, b, x, a,
                    );
                }
            }
        },
    }
}

proof fn lemma_one_hourly_fast_forward(
    zone: Zone,
    days: Seq<Weekday>,
    first: Timestamp,
    from: Timestamp,
    step: int,
    x: Seq<i32>,
    a: Result<Timestamp, ScheduleError>,
    y: Seq<i32>,
    b: Result<Timestamp, ScheduleError>,
)
    requires
        steady(zone),
        x.len() <= y.len(),
        last_on_days(zone, days, first, from, step, x, a),
        last_on_days(zone, days, first, from, step, y, b),
    ensures
        a == b,
{
    let n = x.len() as int;
    assert forall|k: int| 0 <= k < n implies #[trigger] x[k] == y[k] by {
        assert((zone.offset)(steps_back(from, k, step), x[k]));
        assert((zone.offset)(steps_back(from, k, step), y[k]));
    }
    assert(x[n - 1] == y[n - 1]);
}

proof fn lemma_one_weekly_run(
    zone: Zone,
    schedule: AutomationSchedule,
    first: Timestamp,
    now: Timestamp,
    x: Seq<Timestamp>,
    a: Result<Timestamp, ScheduleError>,
    y: Seq<Timestamp>,
    b: Result<Timestamp, ScheduleError>,
    k: int,
)
    requires
        steady(zone),
        weekly_run(zone, schedule, first, now, x, a),
        weekly_run(zone, schedule, first, now, y, b),
        0 <= k < x.len() <= y.len(),
    ensures
        x[k] == y[k],
    decreases k,
{
    if k > 0 {
        lemma_one_weekly_run(zone, schedule, first, now, x, a, y, b, k - 1);
        assert(next_slot(zone, schedule, x[k - 1], Ok(x[k])));
        assert(next_slot(zone, schedule, y[k - 1], Ok(y[k])));
        a_schedule_has_one_next_slot(zone, schedule, x[k - 1], Ok(x[k]), Ok(y[k]));
    }
}

proof fn lemma_one_weekly_fast_forward(
    zone: Zone,
    schedule: AutomationSchedule,
    first: Timestamp,
    now: Timestamp,
    x: Seq<Timestamp>,
    a: Result<Timestamp, ScheduleError>,
    y: Seq<Timestamp>,
    b: Result<Timestamp, ScheduleError>,
)
    requires
        steady(zone),
        weekly_run(zone, schedule, first, now, x, a),
        weekly_run(zone, schedule, first, now, y, b),
        x.len() <= y.len(),
    ensures
        a == b,
{
    let n = x.len() as int;
    lemma_one_weekly_run(zone, schedule, first, now, x, a, y, b, n - 1);
    // What follows the last slot of the shorter run.
    let follows: Result<Timestamp, ScheduleError> = match a {
        Ok(latest) => Ok(
            choose|next: Timestamp|
                now.before(next) && #[trigger] next_slot(zone, schedule, latest, Ok(next)),
        ),
        Err(e) => Err(e),
    };
    assert(next_slot(zone, schedule, x[n - 1], follows));
    if n < y.len() {
        assert(next_slot(zone, schedule, y[n - 1], Ok(y[n])));
        a_schedule_has_one_next_slot(zone, schedule, x[n - 1], follows, Ok(y[n]));
    } else {
        let after: Result<Timestamp, ScheduleError> = match b {
            Ok(latest) => Ok(
                choose|next: Timestamp|
                    now.before(next) && #[trigger] next_slot(zone, schedule, latest, Ok(next)),
            ),
            Err(e) => Err(e),
        };
        assert(next_slot(zone, schedule, y[n - 1], after));
        a_schedule_has_one_next_slot(zone, schedule, x[n - 1], follows, after);
    }
}

/// In such a zone there is one slot to fast-forward to.
pub proof fn a_schedule_has_one_latest_slot(
    zone: Zone,
    schedule: AutomationSchedule,
    first_due: Timestamp,
    now: Timestamp,
    a: Result<Timestamp, ScheduleError>,
    b: Result<Timestamp, ScheduleError>,
)
    requires
        steady(zone),
        latest_due(zone, schedule, first_due, now, a),
        latest_due(zone, schedule, first_due, now, b),
    ensures
        a == b,
{
    if let Some(first) = normalized_cursor(schedule, first_due) {
        if first.before(now) {
            match schedule {
                AutomationSchedule::Minutely { .. } => {},
                AutomationSchedule::Hourly { interval_hours, byday } => {
                    if let Some(days) = byday {
                        let step = interval_hours * 3_600;
                        let from = last_step(first, now, interval_hours as int, 3_600);
                        let x = choose|offs: Seq<i32>| #[trigger]
                            last_on_days(zone, days@, first, from, step, offs, a);
                        let y = choose|offs: Seq<i32>| #[trigger]
                            last_on_days(zone, days@, first, from, step, offs, b);
                        if x.len() <= y.len() {
                            lemma_one_hourly_fast_forward(zone, days@, first, from, step, x, a, y, b);
                        } else {
                            lemma_one_hourly_fast_forward(zone, days@, first, from, step, y, b, x, a);
                        }
                    }
                },
                AutomationSchedule::Weekly { .. } => {
                    let x = choose|run: Seq<Timestamp>| #[trigger]
                        weekly_run(zone, schedule, first, now, run, a);
                    let y = choose|run: Seq<Timestamp>| #[trigger]
                        weekly_run(zone, schedule, first, now, run, b);
                    if x.len() <= y.len() {
                        lemma_one_weekly_fast_forward(zone, schedule, first, now, x, a, y, b);
                    } else {
                        lemma_one_weekly_fast_forward(zone, schedule, first, now, y, b, x, a);
                    }
                },
            }
        }
    }
}

/// A due time that was brought to the start of a minute stays there, and moved by
/// less than a minute.
pub proof fn normalized_cursor_is_stable(schedule: AutomationSchedule, cursor: Timestamp, t: Timestamp)
    requires
        cursor.wf(),
        normalized_cursor(schedule, cursor) == Some(t),
    ensures
        t.wf(),
        normalized_cursor(schedule, t) == Some(t),
        cursor.at_or_before(t),
        t.ns() - cursor.ns() < 60_000_000_000,
{
}

/// The slot that a schedule fast-forwards to is not before the first due time and
/// not after now, unless the first due time itself lies ahead.
#[verifier::spinoff_prover]
pub proof fn fast_forward_stays_between(
    zone: Zone,
    schedule: AutomationSchedule,
    first_due: Timestamp,
    now: Timestamp,
    first: Timestamp,
    latest: Timestamp,
)
    requires
        plausible(zone),
        schedule.advances(),
        first_due.wf(),
        now.wf(),
        normalized_cursor(schedule, first_due) == Some(first),
        first.at_or_before(now),
        latest_due(zone, schedule, first_due, now, Ok(latest)),
    ensures
        latest.wf(),
        first.at_or_before(latest),
        latest.at_or_before(now),
{
    normalized_cursor_is_stable(schedule, first_due, first);
    if first.before(now) {
        match schedule {
            AutomationSchedule::Minutely { interval_minutes } => {
                lemma_last_step(first, now, interval_minutes as int, 60);
                let count = whole_periods(first, now, 60) / interval_minutes as int;
                assert(count * (interval_minutes * 60) >= 0) by (nonlinear_arith)
                    requires
                        count >= 0,
                        interval_minutes > 0,
                ;
            },
            AutomationSchedule::Hourly { interval_hours, byday } => {
                let step = interval_hours * 3_600;
                let from = last_step(first, now, interval_hours as int, 3_600);
                lemma_last_step(first, now, interval_hours as int, 3_600);
                let count = whole_periods(first, now, 3_600) / interval_hours as int;
                assert(count * step >= 0) by (nonlinear_arith)
                    requires
                        count >= 0,
                        step > 0,
                ;
                if let Some(days) = byday {
                    let offs = choose|offs: Seq<i32>| #[trigger]
                        last_on_days(zone, days@, first, from, step, offs, Ok(latest));
                    lemma_back_index(zone, days@, first, from, step, offs, latest, count);
                }
            },
            AutomationSchedule::Weekly { .. } => {
                let run = choose|run: Seq<Timestamp>| #[trigger]
                    weekly_run(zone, schedule, first, now, run, Ok(latest));
                lemma_weekly_run_rises(zone, schedule, first, now, run, latest, run.len() - 1);
            },
        }
    }
}

pub(crate) proof fn lemma_weekly_run_rises(
    zone: Zone,
    schedule: AutomationSchedule,
    first: Timestamp,
    now: Timestamp,
    run: Seq<Timestamp>,
    latest: Timestamp,
    i: int,
)
    requires
        plausible(zone),
        schedule is Weekly,
        first.wf(),
        first.at_or_before(now),
        weekly_run(zone, schedule, first, now, run, Ok(latest)),
        0 <= i < run.len(),
    ensures
        run[i].wf(),
        first.at_or_before(run[i]),
        run[i].at_or_before(now),
    decreases i,
{
    if i > 0 {
        lemma_weekly_run_rises(zone, schedule, first, now, run, latest, i - 1);
        assert(run[i].at_or_before(now));
        next_slot_is_later(zone, schedule, run[i - 1], run[i]);
    }
}

/// What the search back through hourly candidates found is one of them: `back`
/// steps before the last, and no candidate between falls on the days.
pub(crate) proof fn lemma_back_index(
    zone: Zone,
    days: Seq<Weekday>,
    first: Timestamp,
    from: Timestamp,
    step: int,
    offs: Seq<i32>,
    latest: Timestamp,
    count: int,
)
    requires
        last_on_days(zone, days, first, from, step, offs, Ok(latest)),
        first.wf(),
        from.wf(),
        from.nanos == first.nanos,
        step > 0,
        count >= 0,
        from.secs == first.secs + count * step,
    ensures
        latest.wf(),
        latest.nanos == first.nanos,
        0 <= offs.len() - 1 <= count,
        latest.secs == first.secs + (count - (offs.len() - 1)) * step,
        first.secs <= latest.secs <= from.secs,
{
    let n = offs.len() as int;
    assert((n - 1) * step >= 0) by (nonlinear_arith)
        requires
            n >= 1,
            step > 0,
    ;
    if n >= 2 {
        assert((zone.offset)(steps_back(from, n - 2, step), offs[n - 2]));
        assert(first.secs < from.secs - (n - 2) * step);
        assert(n - 1 <= count) by (nonlinear_arith)
            requires
                count * step > (n - 2) * step,
                step > 0,
        ;
    }
    assert((count - (n - 1)) * step == count * step - (n - 1) * step) by (nonlinear_arith);
    assert((count - (n - 1)) * step >= 0) by (nonlinear_arith)
        requires
            n - 1 <= count,
            step > 0,
    ;
}

/// An instant that lies a whole number of intervals after another.
pub open spec fn whole_intervals_after(first: Timestamp, t: Timestamp, interval: int) -> bool {
    &&& t.nanos == first.nanos
    &&& exists|k: int| k >= 0 && t.secs == first.secs + #[trigger] (k * interval)
}

/// Of a schedule that goes by intervals, a fast-forward leads a whole number of them on.
pub proof fn fast_forward_keeps_the_interval(
    zone: Zone,
    schedule: AutomationSchedule,
    first_due: Timestamp,
    now: Timestamp,
    first: Timestamp,
    latest: Timestamp,
)
    requires
        schedule.advances(),
        first_due.wf(),
        now.wf(),
        normalized_cursor(schedule, first_due) == Some(first),
        first.at_or_before(now),
        latest_due(zone, schedule, first_due, now, Ok(latest)),
    ensures
        match schedule {
            AutomationSchedule::Minutely { interval_minutes } => whole_intervals_after(
                first,
                latest,
                interval_minutes * 60,
            ),
            AutomationSchedule::Hourly { interval_hours, .. } => whole_intervals_after(
                first,
                latest,
                interval_hours * 3_600,
            ),
            AutomationSchedule::Weekly { .. } => true,
        },
{
    normalized_cursor_is_stable(schedule, first_due, first);
    let step = match schedule {
        AutomationSchedule::Minutely { interval_minutes } => interval_minutes * 60,
        AutomationSchedule::Hourly { interval_hours, .. } => interval_hours * 3_600,
        AutomationSchedule::Weekly { .. } => 0,
    };
    if !first.before(now) {
        assert(first.secs == first.secs + 0 * step);
    } else {
        match schedule {
            AutomationSchedule::Minutely { interval_minutes } => {
                lemma_last_step(first, now, interval_minutes as int, 60);
                let count = whole_periods(first, now, 60) / interval_minutes as int;
                assert(latest.secs == first.secs + count * step);
            },
            AutomationSchedule::Hourly { interval_hours, byday } => {
                lemma_last_step(first, now, interval_hours as int, 3_600);
                let from = last_step(first, now, interval_hours as int, 3_600);
                let count = whole_periods(first, now, 3_600) / interval_hours as int;
                match byday {
                    None => {
                        assert(latest.secs == first.secs + count * step);
                    },
                    Some(days) => {
                        let offs = choose|offs: Seq<i32>| #[trigger]
                            last_on_days(zone, days@, first, from, step, offs, Ok(latest));
                        lemma_back_index(zone, days@, first, from, step, offs, latest, count);
                        let k = count - (offs.len() - 1);
                        assert(latest.secs == first.secs + k * step);
                    },
                }
            },
            AutomationSchedule::Weekly { .. } => {},
        }
    }
}

/// A fast-forward of a minutely schedule leads to the start of a minute.
pub proof fn minutely_fast_forward_starts_a_minute(
    zone: Zone,
    schedule: AutomationSchedule,
    first_due: Timestamp,
    now: Timestamp,
    latest: Timestamp,
)
    requires
        schedule is Minutely,
        schedule.advances(),
        first_due.wf(),
        now.wf(),
        latest_due(zone, schedule, first_due, now, Ok(latest)),
    ensures
        latest.secs as int % 60 == 0,
        latest.nanos == 0,
{
    let first = normalized_cursor(schedule, first_due)->Some_0;
    normalized_cursor_is_stable(schedule, first_due, first);
    assert(first.secs as int % 60 == 0 && first.nanos == 0);
    if first.before(now) {
        let interval = schedule->interval_minutes as int;
        lemma_last_step(first, now, interval, 60);
        let count = whole_periods(first, now, 60) / interval;
        let k = count * interval;
        assert(count * (interval * 60) == 60 * k) by (nonlinear_arith)
            requires
                k == count * interval,
        ;
    }
}

/// Where a schedule names days, the zone shows one of them at the instant; a weekly schedule
/// names the time of day too.
pub open spec fn falls_on_its_days(zone: Zone, schedule: AutomationSchedule, t: Timestamp) -> bool {
    match schedule {
        AutomationSchedule::Minutely { .. } => true,
        AutomationSchedule::Hourly { byday, .. } => byday matches Some(days) ==> exists|off: i32|
            #[trigger] (zone.offset)(t, off) && on_days(days@, t.secs as int, off as int),
        AutomationSchedule::Weekly { byday, byhour, byminute } => exists|
            day: int,
            local: LocalTime,
        | #[trigger]
            names_day(byday@, byhour, byminute, day) && resolved(local) == Some(t) && #[trigger] (
            zone.reading)(reading_on(day, byhour, byminute) as i64, local),
    }
}

/// A fast-forward from a first due time that falls on the days of the schedule leads to a slot
/// that does.
pub proof fn fast_forward_falls_on_the_days(
    zone: Zone,
    schedule: AutomationSchedule,
    first_due: Timestamp,
    now: Timestamp,
    first: Timestamp,
    latest: Timestamp,
)
    requires
        schedule.advances(),
        first_due.wf(),
        now.wf(),
        normalized_cursor(schedule, first_due) == Some(first),
        first.at_or_before(now),
        falls_on_its_days(zone, schedule, first),
        latest_due(zone, schedule, first_due, now, Ok(latest)),
    ensures
        falls_on_its_days(zone, schedule, latest),
{
    if first.before(now) {
        match schedule {
            AutomationSchedule::Minutely { .. } => {},
            AutomationSchedule::Hourly { interval_hours, byday } => {
                if let Some(days) = byday {
                    let step = interval_hours * 3_600;
                    let from = last_step(first, now, interval_hours as int, 3_600);
                    lemma_last_step(first, now, interval_hours as int, 3_600);
                    let count = whole_periods(first, now, 3_600) / interval_hours as int;
                    let offs = choose|offs: Seq<i32>| #[trigger]
                        last_on_days(zone, days@, first, from, step, offs, Ok(latest));
                    lemma_back_index(zone, days@, first, from, step, offs, latest, count);
                    let n = offs.len() as int;
                    assert((count - (n - 1)) * step == count * step - (n - 1) * step)
                        by (nonlinear_arith);
                    assert((zone.offset)(steps_back(from, n - 1, step), offs[n - 1]));
                }
            },
            AutomationSchedule::Weekly { .. } => {
                let run = choose|run: Seq<Timestamp>| #[trigger]
                    weekly_run(zone, schedule, first, now, run, Ok(latest));
                if run.len() > 1 {
                    let n = run.len() - 1;
                    assert(next_slot(zone, schedule, run[n - 1], Ok(run[n])));
                    weekly_slot_is_on_the_wall_clock(zone, schedule, run[n - 1], latest);
                }
            },
        }
    }
}

/// The next slot after what the search back found lies in the future: a slot between would
/// have been found by the search.
proof fn lemma_no_day_is_passed_over(
    zone: Zone,
    days: Seq<Weekday>,
    first: Timestamp,
    from: Timestamp,
    now: Timestamp,
    step: int,
    count: int,
    offs: Seq<i32>,
    latest: Timestamp,
    tries: Seq<i32>,
    next: Timestamp,
)
    requires
        steady(zone),
        first.wf(),
        from.wf(),
        first.nanos == 0,
        from.nanos == 0,
        step > 0,
        count >= 0,
        from.secs == first.secs + count * step,
        now.secs < from.secs + step,
        last_on_days(zone, days, first, from, step, offs, Ok(latest)),
        first_on_days(zone, days, latest.secs + step, step, tries, Ok(next)),
    ensures
        now.before(next),
{
    lemma_back_index(zone, days, first, from, step, offs, latest, count);
    let back = offs.len() - 1;
    let start = latest.secs + step;
    let n = tries.len() as int;
    assert(start + (n - 1) * step == latest.secs + n * step) by (nonlinear_arith)
        requires
            start == latest.secs + step,
    ;
    assert(next.secs == latest.secs + n * step);
    if !now.before(next) {
        // The slot would be one of the candidates that were passed over.
        let j = back - n;
        assert(n * step > 0) by (nonlinear_arith)
            requires
                n > 0,
                step > 0,
        ;
        assert(latest.secs == from.secs - back * step) by (nonlinear_arith)
            requires
                from.secs == first.secs + count * step,
                latest.secs == first.secs + (count - back) * step,
        ;
        assert(next.secs < from.secs + step);
        assert(j >= 0 && next.secs == from.secs - j * step) by (nonlinear_arith)
            requires
                latest.secs == from.secs - back * step,
                next.secs == latest.secs + n * step,
                next.secs < from.secs + step,
                j == back - n,
                step > 0,
        ;
        assert((zone.offset)(steps_back(from, j, step), offs[j]));
        assert(!on_days(days, from.secs - j * step, offs[j] as int));
        assert((zone.offset)(at_second(start + (n - 1) * step), tries[n - 1]));
        assert(at_second(start + (n - 1) * step) == steps_back(from, j, step));
        assert(false);
    }
}

/// After a fast-forward the next slot lies in the future: nothing that was due is
/// skipped twice. Holds where the zone is steady and its offsets are whole
/// minutes, and, for an hourly schedule, where the first due time starts a minute.
#[verifier::spinoff_prover]
pub proof fn fast_forward_leaves_the_next_slot_ahead(
    zone: Zone,
    schedule: AutomationSchedule,
    first_due: Timestamp,
    now: Timestamp,
    first: Timestamp,
    latest: Timestamp,
    next: Timestamp,
)
    requires
        plausible(zone),
        steady(zone),
        whole_minutes(zone),
        schedule.advances(),
        first_due.wf(),
        now.wf(),
        schedule is Hourly ==> first_due.secs as int % 60 == 0 && first_due.nanos == 0,
        normalized_cursor(schedule, first_due) == Some(first),
        first.at_or_before(now),
        latest_due(zone, schedule, first_due, now, Ok(latest)),
        next_slot(zone, schedule, latest, Ok(next)),
    ensures
        now.before(next),
{
    normalized_cursor_is_stable(schedule, first_due, first);
    fast_forward_stays_between(zone, schedule, first_due, now, first, latest);
    next_slot_is_later(zone, schedule, latest, next);
    if first.before(now) {
        match schedule {
            AutomationSchedule::Minutely { interval_minutes } => {
                let interval = interval_minutes as int;
                lemma_last_step(first, now, interval, 60);
                let count = whole_periods(first, now, 60) / interval;
                let k = count * interval;
                assert(count * (interval * 60) == 60 * k) by (nonlinear_arith)
                    requires
                        k == count * interval,
                ;
                let off = choose|off: i32| #[trigger]
                    (zone.offset)(latest, off) && slot_at_offset(
                        zone,
                        schedule,
                        latest,
                        off as int,
                        Ok(next),
                    );
                assert(off as int % 60 == 0);
                assert(second_of_minute(latest.secs as int, off as int) == 0);
            },
            AutomationSchedule::Hourly { interval_hours, byday } => {
                let interval = interval_hours as int;
                let step = interval * 3_600;
                let from = last_step(first, now, interval, 3_600);
                lemma_last_step(first, now, interval, 3_600);
                let count = whole_periods(first, now, 3_600) / interval;
                let off = choose|off: i32| #[trigger]
                    (zone.offset)(latest, off) && slot_at_offset(
                        zone,
                        schedule,
                        latest,
                        off as int,
                        Ok(next),
                    );
                assert(off as int % 60 == 0);
                match byday {
                    None => {
                        let k = count * interval;
                        assert(count * step == 3_600 * k) by (nonlinear_arith)
                            requires
                                k == count * interval,
                                step == interval * 3_600,
                        ;
                        assert(second_of_minute(latest.secs as int, off as int) == 0);
                    },
                    Some(days) => {
                        let offs = choose|offs: Seq<i32>| #[trigger]
                            last_on_days(zone, days@, first, from, step, offs, Ok(latest));
                        lemma_back_index(zone, days@, first, from, step, offs, latest, count);
                        let back = offs.len() - 1;
                        let k = (count - back) * interval;
                        assert((count - back) * step == 3_600 * k) by (nonlinear_arith)
                            requires
                                k == (count - back) * interval,
                                step == interval * 3_600,
                        ;
                        assert(second_of_minute(latest.secs as int, off as int) == 0);
                        let start = stepped(latest, off as int, step);
                        assert(start == latest.secs + step);
                        let tries = choose|tries: Seq<i32>| #[trigger]
                            first_on_days(zone, days@, start, step, tries, Ok(next));
                        lemma_no_day_is_passed_over(
                            zone, days@, first, from, now, step, count, offs, latest, tries, next,
                        );
                    },
                }
            },
            AutomationSchedule::Weekly { .. } => {
                let run = choose|run: Seq<Timestamp>| #[trigger]
                    weekly_run(zone, schedule, first, now, run, Ok(latest));
                let other = choose|next: Timestamp|
                    now.before(next) && #[trigger] next_slot(zone, schedule, latest, Ok(next));
                a_schedule_has_one_next_slot(zone, schedule, latest, Ok(next), Ok(other));
            },
        }
    }
}

/// The due time that a schedule moves on to lies in the future, under the same
/// conditions.
pub proof fn next_due_is_ahead(
    zone: Zone,
    schedule: AutomationSchedule,
    first_due: Timestamp,
    now: Timestamp,
    t: Timestamp,
)
    requires
        plausible(zone),
        steady(zone),
        whole_minutes(zone),
        schedule.advances(),
        first_due.wf(),
        now.wf(),
        schedule is Hourly ==> first_due.secs as int % 60 == 0 && first_due.nanos == 0,
        next_due(zone, schedule, first_due, now, Ok(t)),
    ensures
        now.before(t),
{
    let first = normalized_cursor(schedule, first_due)->Some_0;
    normalized_cursor_is_stable(schedule, first_due, first);
    if !now.before(first) {
        let latest = choose|latest: Result<Timestamp, ScheduleError>| #[trigger]
            latest_due(zone, schedule, first, now, latest) && match latest {
                Ok(s) => next_slot(zone, schedule, s, Ok(t)),
                Err(e) => Ok::<Timestamp, ScheduleError>(t) == Err::<Timestamp, ScheduleError>(e),
            };
        fast_forward_leaves_the_next_slot_ahead(
            zone,
            schedule,
            first,
            now,
            first,
            latest->Ok_0,
            t,
        );
    }
}

} // verus!
