//! Rules and the slots that they give.
use chrono::{DateTime, Datelike, Local, TimeZone, Utc};
use codewhale::rrule::{parse_byday, AutomationFrequency, AutomationSchedule, RruleField, ScheduleError};
use codewhale::schedule::resolve_local_datetime;
use codewhale::time::{
    checked_duration_ms, duration_ms, floor_div, floor_mod, nanos_between, weekday, LocalTime,
    Timestamp, Weekday, MAX_DAY, MAX_SECS, MIN_SECS,
};

fn stamp(t: DateTime<Utc>) -> Timestamp {
    Timestamp { secs: t.timestamp(), nanos: t.timestamp_subsec_nanos() }
}

fn at(text: &str) -> Timestamp {
    stamp(DateTime::parse_from_rfc3339(text).expect("time").with_timezone(&Utc))
}

fn rfc(t: Timestamp) -> String {
    Utc.timestamp_opt(t.secs, t.nanos).single().expect("in the calendar").to_rfc3339()
}

fn local_day(t: Timestamp) -> chrono::Weekday {
    Local.timestamp_opt(t.secs, t.nanos).single().expect("in the calendar").weekday()
}

fn rule(text: &str) -> AutomationSchedule {
    AutomationSchedule::parse_rrule(text).expect("parse")
}

fn refusal(text: &str) -> String {
    AutomationSchedule::parse_rrule(text).expect_err("should fail").message()
}

fn later(t: Timestamp, secs: i64) -> Timestamp {
    Timestamp { secs: t.secs + secs, nanos: t.nanos }
}

/// A zone without an offset.
fn no_offset(_t: Timestamp) -> i32 {
    0
}

fn single(reading: i64) -> LocalTime {
    LocalTime::Single(Timestamp { secs: reading, nanos: 0 })
}

#[test]
fn parses_hourly_rrule() {
    match rule("FREQ=HOURLY;INTERVAL=2;BYDAY=MO,TU") {
        AutomationSchedule::Hourly { interval_hours, byday } => {
            assert_eq!(interval_hours, 2);
            assert_eq!(byday.expect("byday").len(), 2);
        }
        _ => panic!("expected hourly"),
    }
}

#[test]
fn forkguard_parses_minutely_rrule() {
    match rule("FREQ=MINUTELY;INTERVAL=10") {
        AutomationSchedule::Minutely { interval_minutes } => {
            assert_eq!(interval_minutes, 10);
        }
        _ => panic!("expected minutely"),
    }
}

#[test]
fn minutely_next_after_rounds_to_minute_boundary() {
    let schedule = rule("FREQ=MINUTELY;INTERVAL=10");
    let after = at("2026-07-09T09:17:23.456Z");

    let next = schedule.next_after(after).expect("next");

    assert_eq!(next.secs % 60, 0);
    assert_eq!(next.nanos, 0);
    assert_eq!(nanos_between(after, next) / 60_000_000_000, 9);
}

#[test]
fn minutely_fast_forward_normalizes_legacy_cursor_at_end_of_minute() {
    let schedule = rule("FREQ=MINUTELY;INTERVAL=1");
    let first_due = at("2026-07-09T09:17:59.900Z");
    let now = at("2026-07-09T09:27:59.900Z");

    let latest = schedule.latest_due_at_or_before(first_due, now).expect("fast forward");
    let next = schedule.next_after(latest).expect("next");

    assert_eq!(rfc(latest), "2026-07-09T09:27:00+00:00");
    assert_eq!(rfc(next), "2026-07-09T09:28:00+00:00");
    assert!(next > now);
}

#[test]
fn rejects_zero_minutely_interval() {
    assert!(refusal("FREQ=MINUTELY;INTERVAL=0")
        .contains("INTERVAL must be >= 1 for MINUTELY schedules"));
}

#[test]
fn rejects_unsupported_minutely_fields() {
    assert!(refusal("FREQ=MINUTELY;INTERVAL=10;BYDAY=MO").contains("Unsupported RRULE field"));
}

#[test]
fn fast_forward_finds_latest_hourly_byday_slot() {
    let schedule = rule("FREQ=HOURLY;INTERVAL=1;BYDAY=MO,TU");
    let first_due = at("2026-07-06T01:00:00Z");
    let now = later(first_due, 4 * 86_400);

    let latest = schedule.latest_due_at_or_before(first_due, now).expect("fast forward");

    assert!(latest <= now);
    assert!(matches!(local_day(latest), chrono::Weekday::Mon | chrono::Weekday::Tue));
    assert!(schedule.next_after(latest).expect("next") > now);
}

#[test]
fn fast_forward_finds_latest_weekly_slot() {
    let schedule = rule("FREQ=WEEKLY;BYDAY=MO,WE;BYHOUR=9;BYMINUTE=30");
    let anchor = at("2026-06-01T00:00:00Z");
    let first_due = schedule.next_after(anchor).expect("first due");
    let now = later(first_due, 30 * 86_400);

    let latest = schedule.latest_due_at_or_before(first_due, now).expect("fast forward");

    assert!(latest <= now);
    assert!(matches!(local_day(latest), chrono::Weekday::Mon | chrono::Weekday::Wed));
    assert!(schedule.next_after(latest).expect("next") > now);
}

#[test]
fn passed_slots_are_not_made_up_for() {
    let schedule = rule("FREQ=MINUTELY;INTERVAL=10");
    let first_due = at("2026-07-09T09:00:00Z");
    let now = at("2026-07-09T09:34:30Z");
    let next = schedule.next_due_after(first_due, now).expect("next");
    assert_eq!(rfc(next), "2026-07-09T09:40:00+00:00");
    let ahead = at("2026-07-09T10:00:00Z");
    assert_eq!(schedule.next_due_after(ahead, now).expect("next"), ahead);
}

#[test]
fn one_question_has_one_answer() {
    let after = at("2026-07-09T09:17:30Z");
    let now = at("2026-07-30T09:17:30Z");
    for text in [
        "FREQ=MINUTELY;INTERVAL=10",
        "FREQ=HOURLY;INTERVAL=5;BYDAY=MO,TU",
        "FREQ=WEEKLY;BYDAY=MO,WE;BYHOUR=9;BYMINUTE=30",
    ] {
        let schedule = rule(text);
        assert_eq!(schedule.next_after(after).expect("next"), schedule.next_after(after).expect("next"));
        assert_eq!(
            schedule.latest_due_at_or_before(after, now).expect("latest"),
            schedule.latest_due_at_or_before(after, now).expect("latest")
        );
    }
}

#[test]
fn parses_weekly_rrule() {
    match rule("FREQ=WEEKLY;BYDAY=MO,WE;BYHOUR=9;BYMINUTE=30") {
        AutomationSchedule::Weekly { byday, byhour, byminute } => {
            assert_eq!(byday.len(), 2);
            assert_eq!(byhour, 9);
            assert_eq!(byminute, 30);
        }
        _ => panic!("expected weekly"),
    }
}

#[test]
fn rejects_invalid_rrule_fields() {
    assert!(refusal("FREQ=WEEKLY;BYSECOND=5").contains("Unsupported RRULE field"));
}

#[test]
fn rules_are_read_loosely() {
    match rule("  freq = hourly ;; byday = fr , fr , mo ; interval = 3 ; interval = 4 ") {
        AutomationSchedule::Hourly { interval_hours, byday } => {
            assert_eq!(interval_hours, 4);
            assert_eq!(byday.expect("byday"), vec![Weekday::Fri, Weekday::Mon]);
        }
        _ => panic!("expected hourly"),
    }
}

#[test]
fn spelling_does_not_matter() {
    let plain = format!("{:?}", rule("FREQ=WEEKLY;BYDAY=MO,WE;BYHOUR=9;BYMINUTE=30"));
    for text in [
        "freq=weekly;byday=mo,we;byhour=9;byminute=30",
        "BYMINUTE=30;BYHOUR=9;BYDAY=MO,WE;FREQ=WEEKLY",
        " FREQ = WEEKLY ; BYDAY = MO , WE ; BYHOUR = 9 ; BYMINUTE = 30 ",
        ";FREQ=WEEKLY;; ;BYDAY=MO,WE;BYHOUR=9;BYMINUTE=30;",
    ] {
        assert_eq!(format!("{:?}", rule(text)), plain, "{text}");
    }
    for text in ["FREQ=DAILY;X", "x;freq=daily", " X ; FREQ = DAILY "] {
        assert!(AutomationSchedule::parse_rrule(text).is_err());
    }
}

#[test]
fn every_refusal_has_its_rule() {
    let error = |text: &str| AutomationSchedule::parse_rrule(text).expect_err("should fail");
    assert!(matches!(error("FREQ=HOURLY;INTERVAL"), ScheduleError::InvalidSegment(s) if s == "INTERVAL"));
    assert!(matches!(error(""), ScheduleError::MissingFreq));
    assert!(matches!(error("FREQ=DAILY"), ScheduleError::UnsupportedFreq(s) if s == "DAILY"));
    assert!(matches!(
        error("FREQ=WEEKLY;INTERVAL=2"),
        ScheduleError::UnsupportedField { key, freq: AutomationFrequency::Weekly } if key == "INTERVAL"
    ));
    assert!(matches!(
        error("FREQ=HOURLY;INTERVAL=x"),
        ScheduleError::InvalidNumber(RruleField::Interval)
    ));
    assert!(matches!(
        error("FREQ=HOURLY;INTERVAL=0"),
        ScheduleError::ZeroInterval(AutomationFrequency::Hourly)
    ));
    assert!(matches!(error("FREQ=HOURLY;BYDAY=XX"), ScheduleError::InvalidByday(s) if s == "XX"));
    assert!(matches!(
        error("FREQ=WEEKLY;BYHOUR=1;BYMINUTE=1"),
        ScheduleError::MissingField(RruleField::Byday)
    ));
    assert!(matches!(
        error("FREQ=WEEKLY;BYDAY=MO;BYHOUR=24;BYMINUTE=1"),
        ScheduleError::ByhourRange
    ));
    assert!(matches!(
        error("FREQ=WEEKLY;BYDAY=MO;BYHOUR=2;BYMINUTE=60"),
        ScheduleError::ByminuteRange
    ));
}

#[test]
fn days_are_named_once() {
    assert_eq!(parse_byday("su, SA ,su").expect("days"), vec![Weekday::Sun, Weekday::Sat]);
    assert!(parse_byday("").is_err());
}

#[test]
fn hourly_slots_start_a_minute() {
    let schedule = rule("FREQ=HOURLY;INTERVAL=2");
    let next = schedule
        .next_after_with(at("2026-03-01T10:20:31.5Z"), &no_offset, &single)
        .expect("next");
    assert_eq!(rfc(next), "2026-03-01T12:20:00+00:00");
}

#[test]
fn weekly_slots_are_on_the_wall_clock() {
    // One hour east: 09:30 there is 08:30 in UTC. The first of June 2026 is a Monday.
    let east = |_t: Timestamp| -> i32 { 3_600 };
    let reading = |r: i64| -> LocalTime { LocalTime::Single(Timestamp { secs: r - 3_600, nanos: 0 }) };
    let schedule = rule("FREQ=WEEKLY;BYDAY=MO,WE;BYHOUR=9;BYMINUTE=30");
    let first = schedule
        .next_after_with(at("2026-06-01T08:29:59Z"), &east, &reading)
        .expect("next");
    assert_eq!(rfc(first), "2026-06-01T08:30:00+00:00");
    let second = schedule.next_after_with(first, &east, &reading).expect("next");
    assert_eq!(rfc(second), "2026-06-03T08:30:00+00:00");
}

#[test]
fn skipped_readings_give_no_slot() {
    let never = |_r: i64| -> LocalTime { LocalTime::Missing };
    let schedule = rule("FREQ=WEEKLY;BYDAY=MO;BYHOUR=9;BYMINUTE=30");
    assert!(matches!(
        schedule.next_after_with(at("2026-06-01T00:00:00Z"), &no_offset, &never),
        Err(ScheduleError::NoWeeklySlot)
    ));
    assert_eq!(resolve_local_datetime(LocalTime::Missing), None);
    let (a, b) = (at("2026-10-25T00:30:00Z"), at("2026-10-25T01:30:00Z"));
    assert_eq!(resolve_local_datetime(LocalTime::Ambiguous(a, b)), Some(a));
    assert_eq!(resolve_local_datetime(LocalTime::Single(b)), Some(b));
}

#[test]
fn due_times_move_past_now() {
    let schedule = rule("FREQ=MINUTELY;INTERVAL=5");
    let first = at("2026-07-09T09:00:00Z");
    let due = |now: &str| {
        rfc(schedule.next_due_after_with(first, at(now), &no_offset, &single).expect("due"))
    };
    assert_eq!(due("2026-07-09T08:59:59Z"), "2026-07-09T09:00:00+00:00");
    assert_eq!(due("2026-07-09T09:00:00Z"), "2026-07-09T09:05:00+00:00");
    assert_eq!(due("2026-07-09T09:12:00Z"), "2026-07-09T09:15:00+00:00");
}

#[test]
fn cursors_are_normalised_once() {
    let minutely = rule("FREQ=MINUTELY;INTERVAL=5");
    let cursor = at("2026-07-09T09:17:23.456Z");
    let first = minutely.normalize_due_cursor(cursor).expect("in the calendar");
    assert_eq!(rfc(first), "2026-07-09T09:18:00+00:00");
    assert_eq!(minutely.normalize_due_cursor(first), Some(first));
    assert_eq!(rule("FREQ=HOURLY").normalize_due_cursor(cursor), Some(cursor));
}

#[test]
fn slots_end_with_the_calendar() {
    let last = Timestamp { secs: MAX_SECS, nanos: 0 };
    assert!(matches!(
        rule("FREQ=HOURLY").next_after_with(last, &no_offset, &single),
        Err(ScheduleError::OutOfRange)
    ));
    assert_eq!(rule("FREQ=MINUTELY;INTERVAL=1").normalize_due_cursor(last), None);
}

#[test]
fn the_calendar_is_the_one_of_chrono() {
    assert_eq!(DateTime::<Utc>::MIN_UTC.timestamp(), MIN_SECS);
    assert_eq!(DateTime::<Utc>::MAX_UTC.timestamp(), MAX_SECS);
    assert_eq!(DateTime::<Utc>::MAX_UTC.timestamp().div_euclid(86_400), MAX_DAY);
}

#[test]
fn days_follow_the_calendar() {
    assert_eq!(weekday(0), Weekday::Thu);
    assert_eq!(weekday(-1), Weekday::Wed);
    assert_eq!(weekday(at("2026-06-01T00:00:00Z").secs / 86_400), Weekday::Mon);
    assert_eq!((floor_div(-1, 60), floor_mod(-1, 60)), (-1, 59));
}

#[test]
fn durations_are_whole_milliseconds() {
    let start = at("2026-07-09T09:00:00.0009Z");
    let end = at("2026-07-09T09:00:02.0018Z");
    assert_eq!(duration_ms(start, end), 2_000);
    assert_eq!(duration_ms(end, start), 0);
    assert_eq!(checked_duration_ms(start, end), Some(2_000));
}

#[test]
fn micros_are_rounded_down() {
    assert_eq!(Timestamp { secs: -1, nanos: 999_999_999 }.timestamp_micros(), -1);
    let t = at("2026-07-09T09:27:00.123456789Z");
    assert_eq!(
        t.timestamp_micros(),
        DateTime::parse_from_rfc3339("2026-07-09T09:27:00.123456789Z").expect("time").timestamp_micros()
    );
}

#[test]
fn the_machine_zone_is_asked() {
    // A slot on the wall clock is at that hour and minute in the machine's own zone.
    let schedule = rule("FREQ=WEEKLY;BYDAY=MO,TU,WE,TH,FR,SA,SU;BYHOUR=12;BYMINUTE=34");
    let next = schedule.next_after(at("2026-06-01T00:00:00Z")).expect("next");
    let shown = Local.timestamp_opt(next.secs, 0).single().expect("in the calendar");
    assert_eq!(shown.format("%H:%M:%S").to_string(), "12:34:00");
}
