//! Rules as they are written: every schedule can be written down as a rule, and the rule is read
//! as that schedule.
use vstd::prelude::*;
use vstd::string::*;

use crate::calendar_laws::{
    days_after_monday, hourly_slots_fall_on_named_local_days,
    weekly_slots_fall_on_named_days_at_their_time,
};
use crate::pending::lemma_dec_digits;
use crate::rrule::{
    byday_days, byday_meaning, day_code, rrule_fields, rrule_meaning, AutomationFrequency,
    AutomationSchedule, RruleField, ScheduleError,
};
use crate::rrule_laws::same_schedule;
use crate::schedule::{next_slot, Zone};
use crate::schedule_laws::{plausible, well_formed};
use crate::text::{
    dec, first_index, is_white, lemma_first_index_is, lex_less, parsed_u32, split_on, trim_end, trim_start,
    trimmed, upper,
};
use crate::text_laws::{decimals_are_read_back, joined, joining_undoes_splitting};
use crate::time::{weekday_of_day, LocalTime, Timestamp, Weekday};

verus! {

/// The code of a day in a rule.
pub open spec fn code_of(day: Weekday) -> Seq<char> {
    match day {
        Weekday::Mon => "MO"@,
        Weekday::Tue => "TU"@,
        Weekday::Wed => "WE"@,
        Weekday::Thu => "TH"@,
        Weekday::Fri => "FR"@,
        Weekday::Sat => "SA"@,
        Weekday::Sun => "SU"@,
    }
}

/// The codes of days with commas between them.
pub open spec fn codes(days: Seq<Weekday>) -> Seq<char> {
    joined(Seq::new(days.len(), |i: int| code_of(days[i])), ',')
}

/// A schedule written down as a rule.
pub open spec fn written(schedule: AutomationSchedule) -> Seq<char> {
    match schedule {
        AutomationSchedule::Minutely { interval_minutes } => "FREQ=MINUTELY;INTERVAL="@ + dec(
            interval_minutes as nat,
        ),
        AutomationSchedule::Hourly { interval_hours, byday: None } => "FREQ=HOURLY;INTERVAL="@
            + dec(interval_hours as nat),
        AutomationSchedule::Hourly { interval_hours, byday: Some(days) } =>
            "FREQ=HOURLY;INTERVAL="@ + dec(interval_hours as nat) + ";BYDAY="@ + codes(days@),
        AutomationSchedule::Weekly { byday, byhour, byminute } => "FREQ=WEEKLY;BYDAY="@ + codes(
            byday@,
        ) + ";BYHOUR="@ + dec(byhour as nat) + ";BYMINUTE="@ + dec(byminute as nat),
    }
}

proof fn lemma_codes_differ()
    ensures
        "MO"@ == seq!['M', 'O'],
        "TU"@ == seq!['T', 'U'],
        "WE"@ == seq!['W', 'E'],
        "TH"@ == seq!['T', 'H'],
        "FR"@ == seq!['F', 'R'],
        "SA"@ == seq!['S', 'A'],
        "SU"@ == seq!['S', 'U'],
        forall|a: Weekday, b: Weekday| #[trigger]
            code_of(a) == #[trigger] code_of(b) ==> a == b,
        forall|a: Weekday| (#[trigger] code_of(a)).len() == 2,
{
    reveal_strlit("MO");
    reveal_strlit("TU");
    reveal_strlit("WE");
    reveal_strlit("TH");
    reveal_strlit("FR");
    reveal_strlit("SA");
    reveal_strlit("SU");
    assert("MO"@ =~= seq!['M', 'O']);
    assert("TU"@ =~= seq!['T', 'U']);
    assert("WE"@ =~= seq!['W', 'E']);
    assert("TH"@ =~= seq!['T', 'H']);
    assert("FR"@ =~= seq!['F', 'R']);
    assert("SA"@ =~= seq!['S', 'A']);
    assert("SU"@ =~= seq!['S', 'U']);
    assert forall|a: Weekday, b: Weekday| #[trigger]
        code_of(a) == #[trigger] code_of(b) implies a == b by {
        assert(code_of(a)[0] == code_of(b)[0] && code_of(a)[1] == code_of(b)[1]);
    }
}

/// The codes MO, TU, WE, TH, FR, SA and SU stand for the days of the week in their order, from
/// day 4 of the calendar on, a Monday; no other text is a code, and no two name one day.
pub proof fn day_codes_name_the_week_in_order(code: Seq<char>, other: Seq<char>)
    ensures
        day_code("MO"@) == Some(weekday_of_day(4)) && day_code("MO"@) == Some(Weekday::Mon),
        day_code("TU"@) == Some(weekday_of_day(5)) && day_code("TU"@) == Some(Weekday::Tue),
        day_code("WE"@) == Some(weekday_of_day(6)) && day_code("WE"@) == Some(Weekday::Wed),
        day_code("TH"@) == Some(weekday_of_day(7)) && day_code("TH"@) == Some(Weekday::Thu),
        day_code("FR"@) == Some(weekday_of_day(8)) && day_code("FR"@) == Some(Weekday::Fri),
        day_code("SA"@) == Some(weekday_of_day(9)) && day_code("SA"@) == Some(Weekday::Sat),
        day_code("SU"@) == Some(weekday_of_day(10)) && day_code("SU"@) == Some(Weekday::Sun),
        day_code(code) is Some ==> seq![
            "MO"@,
            "TU"@,
            "WE"@,
            "TH"@,
            "FR"@,
            "SA"@,
            "SU"@,
        ].contains(code),
        day_code(code) is Some && day_code(code) == day_code(other) ==> code == other,
{
    lemma_codes_differ();
    let all = seq!["MO"@, "TU"@, "WE"@, "TH"@, "FR"@, "SA"@, "SU"@];
    assert(code_of(Weekday::Mon) == all[0]);
    assert(code_of(Weekday::Tue) == all[1]);
    assert(code_of(Weekday::Wed) == all[2]);
    assert(code_of(Weekday::Thu) == all[3]);
    assert(code_of(Weekday::Fri) == all[4]);
    assert(code_of(Weekday::Sat) == all[5]);
    assert(code_of(Weekday::Sun) == all[6]);
    if let Some(day) = day_code(code) {
        assert(code == code_of(day));
    }
}

proof fn lemma_day_code(day: Weekday)
    ensures
        day_code(code_of(day)) == Some(day),
{
    day_codes_name_the_week_in_order(code_of(day), code_of(day));
}

/// A character that stands for itself in a rule: a capital letter, a digit or a comma.
pub open spec fn is_plain(c: char) -> bool {
    'A' as int <= c as int <= 'Z' as int || '0' as int <= c as int <= '9' as int || c == ','
}

pub open spec fn all_plain(s: Seq<char>) -> bool {
    forall|i: int| 0 <= i < s.len() ==> is_plain(#[trigger] s[i])
}

proof fn lemma_plain_char(c: char)
    requires
        is_plain(c),
    ensures
        !is_white(c),
        crate::text::upper_char(c) == c,
        c != ';',
        c != '=',
{
}

proof fn lemma_plain(s: Seq<char>)
    requires
        all_plain(s),
    ensures
        trimmed(s) == s,
        upper(s) == s,
        !s.contains(';'),
        !s.contains('='),
{
    assert forall|i: int| 0 <= i < s.len() implies !is_white(#[trigger] s[i]) && s[i] != ';'
        && s[i] != '=' && upper(s)[i] == s[i] by {
        lemma_plain_char(s[i]);
    }
    assert(upper(s) =~= s);
    if s.len() > 0 {
        assert(!is_white(s[0]));
        assert(!is_white(s[s.len() - 1]));
    }
    assert(trim_start(s) == s);
    assert(trim_end(s) == s);
}

/// A segment of a rule.
spec fn segment(field: (Seq<char>, Seq<char>)) -> Seq<char> {
    field.0 + seq!['='] + field.1
}

spec fn segments(fields: Seq<(Seq<char>, Seq<char>)>) -> Seq<Seq<char>> {
    Seq::new(fields.len(), |i: int| segment(fields[i]))
}

spec fn by_key(fields: Seq<(Seq<char>, Seq<char>)>) -> Map<Seq<char>, Seq<char>>
    decreases fields.len(),
{
    if fields.len() == 0 {
        Map::empty()
    } else {
        by_key(fields.drop_last()).insert(fields.last().0, fields.last().1)
    }
}

proof fn lemma_segment(field: (Seq<char>, Seq<char>))
    requires
        field.0.len() > 0,
        field.1.len() > 0,
        all_plain(field.0),
        all_plain(field.1),
    ensures
        trimmed(segment(field)) == segment(field),
        segment(field).len() > 0,
        first_index(segment(field), '=') == field.0.len(),
        first_index(segment(field), '=') < segment(field).len(),
        upper(trimmed(segment(field).take(field.0.len() as int))) == field.0,
        upper(trimmed(segment(field).skip(field.0.len() as int + 1))) == field.1,
        !segment(field).contains(';'),
{
    let s = segment(field);
    lemma_plain(field.0);
    lemma_plain(field.1);
    assert(s[0] == field.0[0]);
    assert(s.last() == field.1.last());
    lemma_plain_char(field.0[0]);
    lemma_plain_char(field.1[field.1.len() - 1]);
    assert(trim_start(s) == s);
    assert(trim_end(s) == s);
    assert forall|i: int| 0 <= i < field.0.len() implies s[i] != '=' by {
        assert(field.0.contains(field.0[i]));
    }
    lemma_first_index_is(s, '=', field.0.len() as int);
    assert(s.take(field.0.len() as int) =~= field.0);
    assert(s.skip(field.0.len() as int + 1) =~= field.1);
    if s.contains(';') {
        let i = choose|i: int| 0 <= i < s.len() && s[i] == ';';
        if i < field.0.len() {
            assert(field.0.contains(field.0[i]));
        } else if i > field.0.len() {
            assert(field.1.contains(field.1[i - field.0.len() - 1]));
        }
    }
}

spec fn fields_are_plain(fields: Seq<(Seq<char>, Seq<char>)>) -> bool {
    forall|i: int|
        #![trigger fields[i]]
        0 <= i < fields.len() ==> fields[i].0.len() > 0 && fields[i].1.len() > 0 && all_plain(
            fields[i].0,
        ) && all_plain(fields[i].1)
}

proof fn lemma_fields(fields: Seq<(Seq<char>, Seq<char>)>)
    requires
        fields_are_plain(fields),
    ensures
        rrule_fields(segments(fields)) == Ok::<_, Seq<char>>(by_key(fields)),
    decreases fields.len(),
{
    if fields.len() > 0 {
        let init = fields.drop_last();
        lemma_fields(init);
        assert(segments(fields).drop_last() =~= segments(init));
        assert(segments(fields).last() == segment(fields.last()));
        lemma_segment(fields[fields.len() - 1]);
    }
}

proof fn lemma_rule(fields: Seq<(Seq<char>, Seq<char>)>)
    requires
        fields.len() > 0,
        fields_are_plain(fields),
    ensures
        rrule_fields(split_on(joined(segments(fields), ';'), ';')) == Ok::<_, Seq<char>>(
            by_key(fields),
        ),
{
    assert forall|i: int| 0 <= i < segments(fields).len() implies !(#[trigger] segments(
        fields,
    )[i]).contains(';') by {
        lemma_segment(fields[i]);
    }
    joining_undoes_splitting(segments(fields), ';');
    lemma_fields(fields);
}

proof fn lemma_dec_is_plain(n: nat)
    ensures
        all_plain(dec(n)),
        dec(n).len() > 0,
{
    lemma_dec_digits(n);
    assert forall|i: int| 0 <= i < dec(n).len() implies is_plain(#[trigger] dec(n)[i]) by {
        let c = dec(n)[i];
        assert(crate::text::is_digit(c));
        lemma_digit_is_plain(c);
    }
}

proof fn lemma_digit_is_plain(c: char)
    requires
        crate::text::is_digit(c),
    ensures
        is_plain(c),
{
}

proof fn lemma_joined_plain(pieces: Seq<Seq<char>>)
    requires
        forall|i: int| 0 <= i < pieces.len() ==> all_plain(#[trigger] pieces[i]),
    ensures
        all_plain(joined(pieces, ',')),
    decreases pieces.len(),
{
    if pieces.len() > 1 {
        let rest = pieces.drop_first();
        assert forall|i: int| 0 <= i < rest.len() implies all_plain(#[trigger] rest[i]) by {
            assert(rest[i] == pieces[i + 1]);
        }
        lemma_joined_plain(rest);
        let s = joined(pieces, ',');
        let tail = joined(rest, ',');
        assert(all_plain(pieces[0]));
        assert forall|i: int| 0 <= i < s.len() implies is_plain(#[trigger] s[i]) by {
            if i < pieces[0].len() {
                assert(s[i] == pieces[0][i]);
            } else if i > pieces[0].len() {
                assert(s[i] == tail[i - pieces[0].len() - 1]);
            }
        }
    } else if pieces.len() == 1 {
        assert(all_plain(pieces[0]));
    }
}

spec fn code_list(days: Seq<Weekday>) -> Seq<Seq<char>> {
    Seq::new(days.len(), |i: int| code_of(days[i]))
}

proof fn lemma_code_is_plain(day: Weekday)
    ensures
        all_plain(code_of(day)),
        code_of(day).len() == 2,
        !code_of(day).contains(','),
{
    lemma_codes_differ();
    let s = code_of(day);
    assert(is_plain(s[0]) && is_plain(s[1]) && s[0] != ',' && s[1] != ',');
}

proof fn lemma_days_of_codes(days: Seq<Weekday>)
    requires
        days.no_duplicates(),
    ensures
        byday_days(code_list(days)) == Ok::<_, Seq<char>>(days),
    decreases days.len(),
{
    if days.len() > 0 {
        let init = days.drop_last();
        let day = days.last();
        lemma_days_of_codes(init);
        assert(code_list(days).drop_last() =~= code_list(init));
        assert(code_list(days).last() == code_of(day));
        lemma_code_is_plain(day);
        lemma_plain(code_of(day));
        lemma_day_code(day);
        assert(!init.contains(day));
        assert(init.push(day) =~= days);
    } else {
        assert(days =~= Seq::empty());
    }
}

proof fn lemma_codes(days: Seq<Weekday>)
    requires
        days.len() > 0,
        days.no_duplicates(),
    ensures
        all_plain(codes(days)),
        codes(days).len() > 0,
        byday_meaning(codes(days)) == Ok::<_, Seq<char>>(days),
{
    assert forall|i: int| 0 <= i < code_list(days).len() implies all_plain(
        #[trigger] code_list(days)[i],
    ) && !code_list(days)[i].contains(',') by {
        lemma_code_is_plain(days[i]);
    }
    lemma_code_is_plain(days[0]);
    lemma_joined_plain(code_list(days));
    assert(codes(days)[0] == code_list(days)[0][0]);
    joining_undoes_splitting(code_list(days), ',');
    lemma_days_of_codes(days);
}

proof fn lemma_words()
    ensures
        all_plain("FREQ"@) && "FREQ"@.len() == 4,
        all_plain("INTERVAL"@) && "INTERVAL"@.len() == 8,
        all_plain("BYDAY"@) && "BYDAY"@.len() == 5,
        all_plain("BYHOUR"@) && "BYHOUR"@.len() == 6,
        all_plain("BYMINUTE"@) && "BYMINUTE"@.len() == 8,
        all_plain("MINUTELY"@) && "MINUTELY"@.len() == 8,
        all_plain("HOURLY"@) && "HOURLY"@.len() == 6,
        all_plain("WEEKLY"@) && "WEEKLY"@.len() == 6,
        "MINUTELY"@[0] == 'M',
        "HOURLY"@[0] == 'H',
        "WEEKLY"@[0] == 'W',
        "INTERVAL"@[0] == 'I',
        "BYMINUTE"@[0] == 'B',
{
    reveal_strlit("FREQ");
    reveal_strlit("INTERVAL");
    reveal_strlit("BYDAY");
    reveal_strlit("BYHOUR");
    reveal_strlit("BYMINUTE");
    reveal_strlit("MINUTELY");
    reveal_strlit("HOURLY");
    reveal_strlit("WEEKLY");
}

proof fn lemma_minutely_text(n: Seq<char>)
    ensures
        "FREQ=MINUTELY;INTERVAL="@ + n == joined(
            segments(seq![("FREQ"@, "MINUTELY"@), ("INTERVAL"@, n)]),
            ';',
        ),
{
    let pieces = segments(seq![("FREQ"@, "MINUTELY"@), ("INTERVAL"@, n)]);
    assert(pieces.drop_first().len() == 1);
    assert(joined(pieces.drop_first(), ';') == pieces[1]);
    assert("FREQ=MINUTELY;INTERVAL="@ =~= "FREQ"@ + seq!['='] + "MINUTELY"@ + seq![';']
        + "INTERVAL"@ + seq!['=']) by {
        reveal_strlit("FREQ=MINUTELY;INTERVAL=");
        reveal_strlit("FREQ");
        reveal_strlit("MINUTELY");
        reveal_strlit("INTERVAL");
    }
    assert("FREQ=MINUTELY;INTERVAL="@ + n =~= joined(pieces, ';'));
}

proof fn lemma_hourly_text(n: Seq<char>)
    ensures
        "FREQ=HOURLY;INTERVAL="@ + n == joined(
            segments(seq![("FREQ"@, "HOURLY"@), ("INTERVAL"@, n)]),
            ';',
        ),
{
    let pieces = segments(seq![("FREQ"@, "HOURLY"@), ("INTERVAL"@, n)]);
    assert(pieces.drop_first().len() == 1);
    assert(joined(pieces.drop_first(), ';') == pieces[1]);
    assert("FREQ=HOURLY;INTERVAL="@ =~= "FREQ"@ + seq!['='] + "HOURLY"@ + seq![';'] + "INTERVAL"@
        + seq!['=']) by {
        reveal_strlit("FREQ=HOURLY;INTERVAL=");
        reveal_strlit("FREQ");
        reveal_strlit("HOURLY");
        reveal_strlit("INTERVAL");
    }
    assert("FREQ=HOURLY;INTERVAL="@ + n =~= joined(pieces, ';'));
}

proof fn lemma_hourly_days_text(n: Seq<char>, d: Seq<char>)
    ensures
        "FREQ=HOURLY;INTERVAL="@ + n + ";BYDAY="@ + d == joined(
            segments(seq![("FREQ"@, "HOURLY"@), ("INTERVAL"@, n), ("BYDAY"@, d)]),
            ';',
        ),
{
    let pieces = segments(seq![("FREQ"@, "HOURLY"@), ("INTERVAL"@, n), ("BYDAY"@, d)]);
    let one = pieces.drop_first();
    let two = one.drop_first();
    assert(joined(two, ';') == pieces[2]);
    assert(joined(one, ';') == pieces[1] + seq![';'] + pieces[2]);
    assert("FREQ=HOURLY;INTERVAL="@ =~= "FREQ"@ + seq!['='] + "HOURLY"@ + seq![';'] + "INTERVAL"@
        + seq!['=']) by {
        reveal_strlit("FREQ=HOURLY;INTERVAL=");
        reveal_strlit("FREQ");
        reveal_strlit("HOURLY");
        reveal_strlit("INTERVAL");
    }
    assert(";BYDAY="@ =~= seq![';'] + "BYDAY"@ + seq!['=']) by {
        reveal_strlit(";BYDAY=");
        reveal_strlit("BYDAY");
    }
    assert("FREQ=HOURLY;INTERVAL="@ + n + ";BYDAY="@ + d =~= joined(pieces, ';'));
}

proof fn lemma_weekly_text(d: Seq<char>, h: Seq<char>, m: Seq<char>)
    ensures
        "FREQ=WEEKLY;BYDAY="@ + d + ";BYHOUR="@ + h + ";BYMINUTE="@ + m == joined(
            segments(
                seq![("FREQ"@, "WEEKLY"@), ("BYDAY"@, d), ("BYHOUR"@, h), ("BYMINUTE"@, m)],
            ),
            ';',
        ),
{
    let pieces = segments(
        seq![("FREQ"@, "WEEKLY"@), ("BYDAY"@, d), ("BYHOUR"@, h), ("BYMINUTE"@, m)],
    );
    let one = pieces.drop_first();
    let two = one.drop_first();
    let three = two.drop_first();
    assert(joined(three, ';') == pieces[3]);
    assert(joined(two, ';') == pieces[2] + seq![';'] + pieces[3]);
    assert(joined(one, ';') == pieces[1] + seq![';'] + joined(two, ';'));
    assert("FREQ=WEEKLY;BYDAY="@ =~= "FREQ"@ + seq!['='] + "WEEKLY"@ + seq![';'] + "BYDAY"@
        + seq!['=']) by {
        reveal_strlit("FREQ=WEEKLY;BYDAY=");
        reveal_strlit("FREQ");
        reveal_strlit("WEEKLY");
        reveal_strlit("BYDAY");
    }
    assert(";BYHOUR="@ =~= seq![';'] + "BYHOUR"@ + seq!['=']) by {
        reveal_strlit(";BYHOUR=");
        reveal_strlit("BYHOUR");
    }
    assert(";BYMINUTE="@ =~= seq![';'] + "BYMINUTE"@ + seq!['=']) by {
        reveal_strlit(";BYMINUTE=");
        reveal_strlit("BYMINUTE");
    }
    assert("FREQ=WEEKLY;BYDAY="@ + d + ";BYHOUR="@ + h + ";BYMINUTE="@ + m =~= joined(
        pieces,
        ';',
    ));
}

/// A schedule that is written down as a rule is read back as that schedule.
#[verifier::spinoff_prover]
pub proof fn written_schedules_are_read_back(
    schedule: AutomationSchedule,
    r: Result<AutomationSchedule, ScheduleError>,
)
    requires
        well_formed(schedule),
        rrule_meaning(written(schedule), r),
    ensures
        r matches Ok(s) && same_schedule(s, schedule),
{
    lemma_words();
    reveal_with_fuel(by_key, 5);
    match schedule {
        AutomationSchedule::Minutely { interval_minutes } => {
            let n = dec(interval_minutes as nat);
            let fields = seq![("FREQ"@, "MINUTELY"@), ("INTERVAL"@, n)];
            lemma_minutely_text(n);
            lemma_dec_is_plain(interval_minutes as nat);
            lemma_rule(fields);
            lemma_two_fields(fields);
            decimals_are_read_back(interval_minutes);
        },
        AutomationSchedule::Hourly { interval_hours, byday } => {
            let n = dec(interval_hours as nat);
            lemma_dec_is_plain(interval_hours as nat);
            decimals_are_read_back(interval_hours);
            match byday {
                None => {
                    let fields = seq![("FREQ"@, "HOURLY"@), ("INTERVAL"@, n)];
                    lemma_hourly_text(n);
                    lemma_rule(fields);
                    lemma_two_fields(fields);
                },
                Some(days) => {
                    let d = codes(days@);
                    let fields = seq![("FREQ"@, "HOURLY"@), ("INTERVAL"@, n), ("BYDAY"@, d)];
                    lemma_hourly_days_text(n, d);
                    lemma_codes(days@);
                    lemma_rule(fields);
                    lemma_three_fields(fields);
                },
            }
        },
        AutomationSchedule::Weekly { byday, byhour, byminute } => {
            let d = codes(byday@);
            let h = dec(byhour as nat);
            let m = dec(byminute as nat);
            let fields = seq![
                ("FREQ"@, "WEEKLY"@),
                ("BYDAY"@, d),
                ("BYHOUR"@, h),
                ("BYMINUTE"@, m),
            ];
            lemma_weekly_text(d, h, m);
            lemma_dec_is_plain(byhour as nat);
            lemma_dec_is_plain(byminute as nat);
            decimals_are_read_back(byhour);
            decimals_are_read_back(byminute);
            lemma_codes(byday@);
            lemma_rule(fields);
            lemma_four_fields(fields);
        },
    }
}

proof fn lemma_two_fields(f: Seq<(Seq<char>, Seq<char>)>)
    requires
        f.len() == 2,
    ensures
        by_key(f) == Map::<Seq<char>, Seq<char>>::empty().insert(f[0].0, f[0].1).insert(f[1].0, f[1].1),
{
    let one = f.drop_last();
    let none = one.drop_last();
    assert(by_key(none) == Map::<Seq<char>, Seq<char>>::empty());
    assert(by_key(one) == Map::<Seq<char>, Seq<char>>::empty().insert(f[0].0, f[0].1));
}

proof fn lemma_three_fields(f: Seq<(Seq<char>, Seq<char>)>)
    requires
        f.len() == 3,
    ensures
        by_key(f) == Map::<Seq<char>, Seq<char>>::empty().insert(f[0].0, f[0].1).insert(
            f[1].0,
            f[1].1,
        ).insert(f[2].0, f[2].1),
{
    lemma_two_fields(f.drop_last());
}

proof fn lemma_four_fields(f: Seq<(Seq<char>, Seq<char>)>)
    requires
        f.len() == 4,
    ensures
        by_key(f) == Map::<Seq<char>, Seq<char>>::empty().insert(f[0].0, f[0].1).insert(
            f[1].0,
            f[1].1,
        ).insert(f[2].0, f[2].1).insert(f[3].0, f[3].1),
{
    lemma_three_fields(f.drop_last());
}

/// A weekly rule that names one day has its slots on that day of the calendar, at its time on the
/// wall: `FREQ=WEEKLY;BYDAY=MO` on days 4, 11, 18 and so on, `TU` on the days after them.
pub proof fn weekly_rules_of_one_day_fall_on_it(
    zone: Zone,
    day: Weekday,
    hour: u32,
    minute: u32,
    schedule: AutomationSchedule,
    after: Timestamp,
    t: Timestamp,
)
    requires
        plausible(zone),
        hour < 24,
        minute < 60,
        rrule_meaning(
            "FREQ=WEEKLY;BYDAY="@ + code_of(day) + ";BYHOUR="@ + dec(hour as nat) + ";BYMINUTE="@
                + dec(minute as nat),
            Ok(schedule),
        ),
        after.wf(),
        next_slot(zone, schedule, after, Ok(t)),
    ensures
        exists|d: int, local: LocalTime|
            {
                &&& #[trigger] (zone.reading)((d * 86_400 + hour * 3_600 + minute * 60) as i64, local)
                &&& (d - 4) % 7 == days_after_monday(day)
                &&& #[trigger] weekday_of_day(d) == day
                &&& local matches LocalTime::Single(x) ==> x == t
                &&& local matches LocalTime::Ambiguous(x, _) ==> x == t
                &&& local !is Missing
            },
{
    lemma_words();
    reveal_with_fuel(by_key, 5);
    let d = code_of(day);
    let h = dec(hour as nat);
    let m = dec(minute as nat);
    let fields = seq![("FREQ"@, "WEEKLY"@), ("BYDAY"@, d), ("BYHOUR"@, h), ("BYMINUTE"@, m)];
    lemma_weekly_text(d, h, m);
    lemma_dec_is_plain(hour as nat);
    lemma_dec_is_plain(minute as nat);
    decimals_are_read_back(hour);
    decimals_are_read_back(minute);
    lemma_one_code(day);
    lemma_rule(fields);
    lemma_four_fields(fields);
    let byday = schedule->Weekly_byday;
    assert(schedule is Weekly);
    assert(schedule->byhour == hour && schedule->byminute == minute);
    assert(byday@ == seq![day]);
    weekly_slots_fall_on_named_days_at_their_time(zone, byday, hour, minute, after, t);
    let (off, x, local) = choose|off: i32, x: int, local: LocalTime|
        {
            &&& #[trigger] (zone.offset)(after, off)
            &&& 0 <= x - (after.secs + off) / 86_400 < 15
            &&& byday@.contains(#[trigger] weekday_of_day(x))
            &&& exists|w: Weekday| #[trigger]
                byday@.contains(w) && (x - 4) % 7 == days_after_monday(w)
            &&& #[trigger] (zone.reading)((x * 86_400 + hour * 3_600 + minute * 60) as i64, local)
            &&& match local {
                LocalTime::Missing => false,
                LocalTime::Single(y) => y == t,
                LocalTime::Ambiguous(y, _) => y == t,
            }
        };
    assert(weekday_of_day(x) == day);
}

proof fn lemma_one_code(day: Weekday)
    ensures
        all_plain(code_of(day)),
        code_of(day).len() == 2,
        byday_meaning(code_of(day)) == Ok::<_, Seq<char>>(seq![day]),
{
    lemma_code_is_plain(day);
    lemma_codes(seq![day]);
    assert(code_list(seq![day]) =~= seq![code_of(day)]);
    assert(codes(seq![day]) == code_of(day));
}

/// An hourly rule that names one day has its slots on that day of the calendar on the wall.
pub proof fn hourly_rules_of_one_day_fall_on_it(
    zone: Zone,
    day: Weekday,
    hours: u32,
    schedule: AutomationSchedule,
    after: Timestamp,
    t: Timestamp,
)
    requires
        plausible(zone),
        hours > 0,
        rrule_meaning(
            "FREQ=HOURLY;INTERVAL="@ + dec(hours as nat) + ";BYDAY="@ + code_of(day),
            Ok(schedule),
        ),
        after.wf(),
        next_slot(zone, schedule, after, Ok(t)),
    ensures
        exists|off: i32| #[trigger]
            (zone.offset)(t, off) && ((t.secs + off) / 86_400 - 4) % 7 == days_after_monday(day),
{
    lemma_words();
    reveal_with_fuel(by_key, 5);
    let d = code_of(day);
    let n = dec(hours as nat);
    let fields = seq![("FREQ"@, "HOURLY"@), ("INTERVAL"@, n), ("BYDAY"@, d)];
    lemma_hourly_days_text(n, d);
    lemma_dec_is_plain(hours as nat);
    decimals_are_read_back(hours);
    lemma_one_code(day);
    lemma_rule(fields);
    lemma_three_fields(fields);
    assert(schedule is Hourly);
    let days = schedule->Hourly_byday->Some_0;
    assert(days@ == seq![day]);
    hourly_slots_fall_on_named_local_days(zone, hours, days, after, t);
}

proof fn lemma_split_push(rule: Seq<char>, sep: char, last: Seq<char>)
    requires
        !last.contains(sep),
    ensures
        split_on(rule + seq![sep] + last, sep) == split_on(rule, sep).push(last),
    decreases rule.len(),
{
    crate::text::lemma_first_index(rule, sep);
    let k = first_index(rule, sep);
    if k >= rule.len() {
        if rule.contains(sep) {
            let i = choose|i: int| 0 <= i < rule.len() && rule[i] == sep;
            assert(false);
        }
        crate::text_laws::lemma_split_first(rule, sep, last);
        crate::text_laws::lemma_split_none(last, sep);
        crate::text_laws::lemma_split_none(rule, sep);
        assert(seq![rule] + seq![last] =~= seq![rule].push(last));
    } else {
        let piece = rule.take(k);
        let rest = rule.skip(k + 1);
        assert(!piece.contains(sep));
        lemma_split_push(rest, sep, last);
        assert(rule =~= piece + seq![sep] + rest);
        assert(rule + seq![sep] + last =~= piece + seq![sep] + (rest + seq![sep] + last));
        crate::text_laws::lemma_split_first(piece, sep, rest + seq![sep] + last);
        crate::text_laws::lemma_split_first(piece, sep, rest);
        assert(seq![piece] + split_on(rest, sep).push(last) =~= (seq![piece] + split_on(
            rest,
            sep,
        )).push(last));
    }
}

/// A further segment sets its key, whatever the rule set it to before, and leaves every other key
/// alone.
pub proof fn a_later_segment_sets_its_key(rule: Seq<char>, key: Seq<char>, value: Seq<char>)
    requires
        rrule_fields(split_on(rule, ';')) is Ok,
        key.len() > 0,
        value.len() > 0,
        all_plain(key),
        all_plain(value),
    ensures
        rrule_fields(split_on(rule + seq![';'] + (key + seq!['='] + value), ';')) matches Ok(fields)
            && fields.contains_key(key) && fields[key] == value && forall|k: Seq<char>|
            k != key ==> {
                let before = rrule_fields(split_on(rule, ';'))->Ok_0;
                (#[trigger] fields.contains_key(k) <==> before.contains_key(k)) && (
                fields.contains_key(k) ==> fields[k] == before[k])
            },
{
    let last = segment((key, value));
    lemma_segment((key, value));
    lemma_split_push(rule, ';', last);
    let pieces = split_on(rule, ';').push(last);
    assert(pieces.drop_last() =~= split_on(rule, ';'));
}

/// A segment without an equals sign spoils a rule; a blank one does nothing.
pub proof fn segments_have_an_equals_sign(
    rule: Seq<char>,
    last: Seq<char>,
    r: Result<AutomationSchedule, ScheduleError>,
)
    requires
        rrule_fields(split_on(rule, ';')) is Ok,
        !last.contains(';'),
        !last.contains('='),
        rrule_meaning(rule + seq![';'] + last, r),
    ensures
        trimmed(last).len() > 0 ==> (r matches Err(ScheduleError::InvalidSegment(t)) && t@
            == trimmed(last)),
        trimmed(last).len() == 0 ==> rrule_meaning(rule, r),
{
    lemma_split_push(rule, ';', last);
    let pieces = split_on(rule, ';').push(last);
    assert(pieces.drop_last() =~= split_on(rule, ';'));
    let item = trimmed(last);
    crate::text_laws::trimming_cuts_off_white_space_alone(last);
    let (from, to) = choose|from: int, to: int|
        0 <= from <= to <= last.len() && item == #[trigger] last.subrange(from, to);
    assert forall|i: int| 0 <= i < item.len() implies item[i] != '=' by {
        assert(last.contains(last[from + i]));
    }
    lemma_first_index_is(item, '=', item.len() as int);
}

/// What the fields of a rule say is what the schedule does: the frequency by its name, the
/// interval by its number or one, days, hour and minute as they stand, and no field beside.
pub proof fn accepted_rules_say_what_the_schedule_does(
    rrule: Seq<char>,
    schedule: AutomationSchedule,
    fields: Map<Seq<char>, Seq<char>>,
)
    requires
        rrule_meaning(rrule, Ok(schedule)),
        rrule_fields(split_on(rrule, ';')) == Ok::<_, Seq<char>>(fields),
    ensures
        fields.contains_key("FREQ"@),
        match schedule {
            AutomationSchedule::Minutely { interval_minutes } => {
                &&& fields["FREQ"@] == "MINUTELY"@
                &&& forall|k: Seq<char>| #[trigger]
                    fields.contains_key(k) ==> k == "FREQ"@ || k == "INTERVAL"@
                &&& fields.contains_key("INTERVAL"@) ==> parsed_u32(fields["INTERVAL"@]) == Some(
                    interval_minutes,
                )
                &&& !fields.contains_key("INTERVAL"@) ==> interval_minutes == 1
                &&& interval_minutes > 0
            },
            AutomationSchedule::Hourly { interval_hours, byday } => {
                &&& fields["FREQ"@] == "HOURLY"@
                &&& forall|k: Seq<char>| #[trigger]
                    fields.contains_key(k) ==> k == "FREQ"@ || k == "INTERVAL"@ || k == "BYDAY"@
                &&& fields.contains_key("INTERVAL"@) ==> parsed_u32(fields["INTERVAL"@]) == Some(
                    interval_hours,
                )
                &&& !fields.contains_key("INTERVAL"@) ==> interval_hours == 1
                &&& interval_hours > 0
                &&& fields.contains_key("BYDAY"@) <==> byday is Some
                &&& byday matches Some(days) ==> names_its_days(fields["BYDAY"@], days@)
            },
            AutomationSchedule::Weekly { byday, byhour, byminute } => {
                &&& fields["FREQ"@] == "WEEKLY"@
                &&& forall|k: Seq<char>| #[trigger]
                    fields.contains_key(k) ==> k == "FREQ"@ || k == "BYDAY"@ || k == "BYHOUR"@ || k
                        == "BYMINUTE"@
                &&& fields.contains_key("BYDAY"@) && names_its_days(fields["BYDAY"@], byday@)
                &&& fields.contains_key("BYHOUR"@) && parsed_u32(fields["BYHOUR"@]) == Some(byhour)
                &&& fields.contains_key("BYMINUTE"@) && parsed_u32(fields["BYMINUTE"@]) == Some(
                    byminute,
                )
                &&& byhour <= 23 && byminute <= 59
            },
        },
{
    lemma_words();
    if fields.contains_key("BYDAY"@) {
        lemma_names_its_days(split_on(fields["BYDAY"@], ','));
    }
}

/// A day is among `days` where its code, in any case and with white space round it, is among the
/// words that commas separate in `value`, and every word is a code.
pub open spec fn names_its_days(value: Seq<char>, days: Seq<Weekday>) -> bool {
    &&& forall|w: Weekday| #[trigger]
        days.contains(w) <==> exists|i: int|
            0 <= i < split_on(value, ',').len() && upper(trimmed(#[trigger] split_on(value, ',')[i]))
                == code_of(w)
    &&& forall|i: int|
        0 <= i < split_on(value, ',').len() ==> exists|w: Weekday|
            upper(trimmed(#[trigger] split_on(value, ',')[i])) == #[trigger] code_of(w)
    &&& days.no_duplicates()
}

proof fn lemma_names_its_days(words: Seq<Seq<char>>)
    ensures
        byday_days(words) matches Ok(days) ==> {
            &&& days.no_duplicates()
            &&& forall|w: Weekday| #[trigger]
                days.contains(w) <==> exists|i: int|
                    0 <= i < words.len() && upper(trimmed(#[trigger] words[i])) == code_of(w)
            &&& forall|i: int|
                0 <= i < words.len() ==> exists|w: Weekday|
                    upper(trimmed(#[trigger] words[i])) == #[trigger] code_of(w)
        },
    decreases words.len(),
{
    if words.len() > 0 && byday_days(words) is Ok {
        let days = byday_days(words)->Ok_0;
        let init = words.drop_last();
        lemma_names_its_days(init);
        let before = byday_days(init)->Ok_0;
        let n = words.len() - 1;
        let code = upper(trimmed(words[n]));
        let day = day_code(code)->Some_0;
        lemma_codes_differ();
        lemma_day_code(day);
        day_codes_name_the_week_in_order(code, code_of(day));
        assert(code == code_of(day));
        assert forall|w: Weekday| #[trigger]
            days.contains(w) <==> exists|i: int|
                0 <= i < words.len() && upper(trimmed(#[trigger] words[i])) == code_of(w) by {
            if days.contains(w) {
                if before.contains(w) {
                    let i = choose|i: int|
                        0 <= i < init.len() && upper(trimmed(#[trigger] init[i])) == code_of(w);
                    assert(words[i] == init[i]);
                } else {
                    assert(w == day);
                    assert(upper(trimmed(words[n])) == code_of(w));
                }
            }
            if exists|i: int|
                0 <= i < words.len() && upper(trimmed(#[trigger] words[i])) == code_of(w) {
                let i = choose|i: int|
                    0 <= i < words.len() && upper(trimmed(#[trigger] words[i])) == code_of(w);
                if i < n {
                    assert(init[i] == words[i]);
                    assert(before.contains(w));
                    let j = choose|j: int| 0 <= j < before.len() && before[j] == w;
                    assert(days[j] == w);
                } else {
                    assert(w == day);
                    if !before.contains(day) {
                        assert(days[days.len() - 1] == day);
                    }
                }
            }
        }
        assert forall|i: int| 0 <= i < words.len() implies exists|w: Weekday|
            upper(trimmed(#[trigger] words[i])) == #[trigger] code_of(w) by {
            if i < n {
                assert(init[i] == words[i]);
            }
        }
    }
}

/// A rule that is refused is at fault in just the way its error says.
pub proof fn refused_rules_are_at_fault(
    rrule: Seq<char>,
    e: ScheduleError,
    fields: Map<Seq<char>, Seq<char>>,
)
    requires
        rrule_meaning(rrule, Err(e)),
        rrule_fields(split_on(rrule, ';')) == Ok::<_, Seq<char>>(fields),
    ensures
        match e {
            ScheduleError::MissingFreq => !fields.contains_key("FREQ"@),
            ScheduleError::UnsupportedFreq(t) => fields.contains_key("FREQ"@) && t@
                == fields["FREQ"@] && t@ != "MINUTELY"@ && t@ != "HOURLY"@ && t@ != "WEEKLY"@,
            ScheduleError::UnsupportedField { key, freq } => fields.contains_key(key@) && match freq {
                AutomationFrequency::Minutely => fields["FREQ"@] == "MINUTELY"@ && key@ != "FREQ"@
                    && key@ != "INTERVAL"@,
                AutomationFrequency::Hourly => fields["FREQ"@] == "HOURLY"@ && key@ != "FREQ"@
                    && key@ != "INTERVAL"@ && key@ != "BYDAY"@,
                AutomationFrequency::Weekly => fields["FREQ"@] == "WEEKLY"@ && key@ != "FREQ"@
                    && key@ != "BYDAY"@ && key@ != "BYHOUR"@ && key@ != "BYMINUTE"@,
            },
            ScheduleError::InvalidNumber(RruleField::Interval) => fields.contains_key("INTERVAL"@)
                && parsed_u32(fields["INTERVAL"@]) is None,
            ScheduleError::InvalidNumber(RruleField::Byhour) => fields.contains_key("BYHOUR"@)
                && parsed_u32(fields["BYHOUR"@]) is None,
            ScheduleError::InvalidNumber(RruleField::Byminute) => fields.contains_key("BYMINUTE"@)
                && parsed_u32(fields["BYMINUTE"@]) is None,
            ScheduleError::ZeroInterval(freq) => fields.contains_key("INTERVAL"@) && parsed_u32(
                fields["INTERVAL"@],
            ) == Some(0u32) && match freq {
                AutomationFrequency::Minutely => fields["FREQ"@] == "MINUTELY"@,
                AutomationFrequency::Hourly => fields["FREQ"@] == "HOURLY"@,
                AutomationFrequency::Weekly => false,
            },
            ScheduleError::InvalidByday(t) => fields.contains_key("BYDAY"@) && (forall|w: Weekday|
                t@ != #[trigger] code_of(w)) && exists|i: int|
                0 <= i < split_on(fields["BYDAY"@], ',').len() && upper(
                    trimmed(#[trigger] split_on(fields["BYDAY"@], ',')[i]),
                ) == t@,
            ScheduleError::MissingField(RruleField::Byday) => fields["FREQ"@] == "WEEKLY"@
                && !fields.contains_key("BYDAY"@),
            ScheduleError::MissingField(RruleField::Byhour) => fields["FREQ"@] == "WEEKLY"@
                && !fields.contains_key("BYHOUR"@),
            ScheduleError::MissingField(RruleField::Byminute) => fields["FREQ"@] == "WEEKLY"@
                && !fields.contains_key("BYMINUTE"@),
            ScheduleError::ByhourRange => parsed_u32(fields["BYHOUR"@]) matches Some(h) && h > 23,
            ScheduleError::ByminuteRange => parsed_u32(fields["BYMINUTE"@]) matches Some(m) && m
                > 59,
            _ => false,
        },
{
    lemma_words();
    if let ScheduleError::InvalidByday(t) = e {
        lemma_bad_word(split_on(fields["BYDAY"@], ','));
    }
}

proof fn lemma_bad_word(words: Seq<Seq<char>>)
    ensures
        byday_days(words) matches Err(code) ==> {
            &&& forall|w: Weekday| code != #[trigger] code_of(w)
            &&& exists|i: int|
                0 <= i < words.len() && upper(trimmed(#[trigger] words[i])) == code
        },
    decreases words.len(),
{
    if words.len() > 0 && byday_days(words) is Err {
        let code = byday_days(words)->Err_0;
        let init = words.drop_last();
        lemma_bad_word(init);
        if byday_days(init) is Err {
            let i = choose|i: int|
                0 <= i < init.len() && upper(trimmed(#[trigger] init[i])) == code;
            assert(words[i] == init[i]);
        } else {
            assert(upper(trimmed(words[words.len() - 1])) == code);
            assert forall|w: Weekday| code != #[trigger] code_of(w) by {
                lemma_day_code(w);
            }
        }
    }
}

/// A rule with fields that its frequency does not have is refused for the first of them in the order
/// of texts.
pub proof fn the_first_unsupported_field_is_named(
    rrule: Seq<char>,
    key: String,
    freq: AutomationFrequency,
    fields: Map<Seq<char>, Seq<char>>,
    other: Seq<char>,
)
    requires
        rrule_meaning(rrule, Err(ScheduleError::UnsupportedField { key, freq })),
        rrule_fields(split_on(rrule, ';')) == Ok::<_, Seq<char>>(fields),
        fields.contains_key(other),
        other != "FREQ"@,
        freq is Minutely ==> other != "INTERVAL"@,
        freq is Hourly ==> other != "INTERVAL"@ && other != "BYDAY"@,
        freq is Weekly ==> other != "BYDAY"@ && other != "BYHOUR"@ && other != "BYMINUTE"@,
    ensures
        other == key@ || lex_less(key@, other),
{
    lemma_words();
}

/// The words of each error of a rule or a schedule.
pub proof fn errors_say_what_is_wrong(e: ScheduleError)
    ensures
        match e {
            ScheduleError::InvalidSegment(item) => e.text() == "Invalid RRULE segment '"@ + item@
                + "'"@,
            ScheduleError::MissingFreq => e.text() == "RRULE must include FREQ"@,
            ScheduleError::UnsupportedFreq(freq) => e.text() == "Unsupported RRULE FREQ '"@ + freq@
                + "'. Supported: MINUTELY, HOURLY and WEEKLY"@,
            ScheduleError::UnsupportedField { key, freq } => e.text()
                == "Unsupported RRULE field '"@ + key@ + "' for "@ + match freq {
                AutomationFrequency::Minutely => "MINUTELY"@,
                AutomationFrequency::Hourly => "HOURLY"@,
                AutomationFrequency::Weekly => "WEEKLY"@,
            } + ". Allowed: "@ + match freq {
                AutomationFrequency::Minutely => "FREQ,INTERVAL"@,
                AutomationFrequency::Hourly => "FREQ,INTERVAL,BYDAY"@,
                AutomationFrequency::Weekly => "FREQ,BYDAY,BYHOUR,BYMINUTE"@,
            },
            ScheduleError::InvalidNumber(field) => e.text() == "Failed to parse "@ + match field {
                RruleField::Interval => "INTERVAL"@,
                RruleField::Byday => "BYDAY"@,
                RruleField::Byhour => "BYHOUR"@,
                RruleField::Byminute => "BYMINUTE"@,
            },
            ScheduleError::ZeroInterval(freq) => e.text() == "INTERVAL must be >= 1 for "@
                + match freq {
                AutomationFrequency::Minutely => "MINUTELY"@,
                AutomationFrequency::Hourly => "HOURLY"@,
                AutomationFrequency::Weekly => "WEEKLY"@,
            } + " schedules"@,
            ScheduleError::InvalidByday(code) => e.text() == "Invalid BYDAY value '"@ + code@
                + "'"@,
            ScheduleError::MissingField(field) => e.text() == "WEEKLY schedules require "@
                + match field {
                RruleField::Interval => "INTERVAL"@,
                RruleField::Byday => "BYDAY"@,
                RruleField::Byhour => "BYHOUR"@,
                RruleField::Byminute => "BYMINUTE"@,
            },
            ScheduleError::ByhourRange => e.text() == "BYHOUR must be between 0 and 23"@,
            ScheduleError::ByminuteRange => e.text() == "BYMINUTE must be between 0 and 59"@,
            ScheduleError::NoHourlySlot => e.text()
                == "Unable to compute next HOURLY run for BYDAY filter"@,
            ScheduleError::NoWeeklySlot => e.text() == "Unable to compute next WEEKLY run"@,
            ScheduleError::NoHourlyFastForward => e.text()
                == "Unable to fast-forward HOURLY run for BYDAY filter"@,
            ScheduleError::OutOfRange => e.text()
                == "Schedule slot is outside the supported calendar"@,
        },
{
}

} // verus!
