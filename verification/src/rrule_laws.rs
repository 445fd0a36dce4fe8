//! A rule has one meaning, and keeps it when it is stored.
use vstd::prelude::*;

use crate::rrule::{rrule_fields, rrule_meaning, AutomationSchedule, ScheduleError};
use crate::text::{
    first_index, is_white, lemma_first_index, lemma_first_index_is, lex_less_is_a_strict_order,
    split_on, trim_end, trim_start, trimmed, upper, upper_char,
};

verus! {

/// A rule as it is stored: without surrounding white space and in upper case.
pub open spec fn stored_rule(rrule: Seq<char>) -> Seq<char> {
    upper(trimmed(rrule))
}

/// A character that upper case leaves alone and nothing else turns into.
pub(crate) open spec fn is_mark(c: char) -> bool {
    c == ';' || c == '=' || c == ','
}

proof fn lemma_upper_char(c: char, mark: char)
    ensures
        is_white(upper_char(c)) == is_white(c),
        is_mark(mark) ==> (upper_char(c) == mark <==> c == mark),
        upper_char(upper_char(c)) == upper_char(c),
{
}

pub(crate) proof fn lemma_upper_first_index(s: Seq<char>, mark: char)
    requires
        is_mark(mark),
    ensures
        first_index(upper(s), mark) == first_index(s, mark),
{
    lemma_first_index(s, mark);
    let k = first_index(s, mark);
    assert forall|i: int| 0 <= i < k implies upper(s)[i] != mark by {
        lemma_upper_char(s[i], mark);
    }
    if k < s.len() {
        lemma_upper_char(s[k], mark);
    }
    lemma_first_index_is(upper(s), mark, k);
}

pub(crate) proof fn lemma_upper_upper(s: Seq<char>)
    ensures
        upper(upper(s)) == upper(s),
{
    assert forall|i: int| 0 <= i < s.len() implies #[trigger] upper(upper(s))[i] == upper(s)[i] by {
        lemma_upper_char(s[i], ';');
    }
    assert(upper(upper(s)) =~= upper(s));
}

proof fn lemma_upper_trim_start(s: Seq<char>)
    ensures
        trim_start(upper(s)) == upper(trim_start(s)),
    decreases s.len(),
{
    if s.len() > 0 {
        lemma_upper_char(s[0], ';');
        if is_white(s[0]) {
            assert(upper(s).drop_first() =~= upper(s.drop_first()));
            lemma_upper_trim_start(s.drop_first());
        }
    }
}

proof fn lemma_upper_trim_end(s: Seq<char>)
    ensures
        trim_end(upper(s)) == upper(trim_end(s)),
    decreases s.len(),
{
    if s.len() > 0 {
        lemma_upper_char(s.last(), ';');
        if is_white(s.last()) {
            assert(upper(s).drop_last() =~= upper(s.drop_last()));
            lemma_upper_trim_end(s.drop_last());
        }
    }
}

pub(crate) proof fn lemma_upper_trimmed(s: Seq<char>)
    ensures
        trimmed(upper(s)) == upper(trimmed(s)),
{
    lemma_upper_trim_start(s);
    lemma_upper_trim_end(trim_start(s));
}

/// The pieces of a rule in upper case.
pub open spec fn uppers(pieces: Seq<Seq<char>>) -> Seq<Seq<char>> {
    Seq::new(pieces.len(), |i: int| upper(pieces[i]))
}

pub(crate) proof fn lemma_upper_split(s: Seq<char>, sep: char)
    requires
        is_mark(sep),
    ensures
        split_on(upper(s), sep) == uppers(split_on(s, sep)),
    decreases s.len(),
{
    lemma_upper_first_index(s, sep);
    lemma_first_index(s, sep);
    let k = first_index(s, sep);
    if k >= s.len() {
        assert(split_on(upper(s), sep) =~= uppers(split_on(s, sep)));
    } else {
        assert(upper(s).take(k) =~= upper(s.take(k)));
        assert(upper(s).skip(k + 1) =~= upper(s.skip(k + 1)));
        lemma_upper_split(s.skip(k + 1), sep);
        let rest = split_on(s.skip(k + 1), sep);
        assert(uppers(seq![s.take(k)] + rest) =~= seq![upper(s.take(k))] + uppers(rest));
    }
}

proof fn lemma_upper_fields(pieces: Seq<Seq<char>>)
    ensures
        rrule_fields(pieces) matches Ok(fields) ==> rrule_fields(uppers(pieces)) == Ok::<
            Map<Seq<char>, Seq<char>>,
            Seq<char>,
        >(fields),
    decreases pieces.len(),
{
    if pieces.len() > 0 {
        lemma_upper_fields(pieces.drop_last());
        assert(uppers(pieces).drop_last() =~= uppers(pieces.drop_last()));
        let piece = pieces.last();
        let item = trimmed(piece);
        lemma_upper_trimmed(piece);
        lemma_upper_first_index(item, '=');
        lemma_first_index(item, '=');
        let eq = first_index(item, '=');
        if eq < item.len() {
            assert(upper(item).take(eq) =~= upper(item.take(eq)));
            assert(upper(item).skip(eq + 1) =~= upper(item.skip(eq + 1)));
            lemma_upper_trimmed(item.take(eq));
            lemma_upper_trimmed(item.skip(eq + 1));
            lemma_upper_upper(trimmed(item.take(eq)));
            lemma_upper_upper(trimmed(item.skip(eq + 1)));
        }
    }
}

/// The pieces of a rule without white space around them.
pub open spec fn trims(pieces: Seq<Seq<char>>) -> Seq<Seq<char>> {
    Seq::new(pieces.len(), |i: int| trimmed(pieces[i]))
}

proof fn lemma_fields_of_trims(a: Seq<Seq<char>>, b: Seq<Seq<char>>)
    requires
        trims(a) == trims(b),
    ensures
        rrule_fields(a) == rrule_fields(b),
    decreases a.len(),
{
    assert(trims(a).len() == a.len() && trims(b).len() == b.len());
    if a.len() > 0 {
        assert(trims(a.drop_last()) =~= trims(a).drop_last());
        assert(trims(b.drop_last()) =~= trims(b).drop_last());
        lemma_fields_of_trims(a.drop_last(), b.drop_last());
        assert(trims(a).last() == trimmed(a.last()));
        assert(trims(b).last() == trimmed(b.last()));
    }
}

proof fn lemma_trim_start_without_last(s: Seq<char>)
    requires
        s.len() > 0,
        is_white(s.last()),
    ensures
        trim_start(s).len() > 0 ==> trim_start(s).last() == s.last(),
        trim_start(s.drop_last()) == if trim_start(s).len() == 0 {
            Seq::empty()
        } else {
            trim_start(s).drop_last()
        },
    decreases s.len(),
{
    if is_white(s[0]) {
        if s.len() == 1 {
            assert(s.drop_first() =~= Seq::empty());
            assert(s.drop_last() =~= Seq::empty());
            assert(trim_start(s) =~= Seq::empty()) by {
                reveal_with_fuel(trim_start, 2);
            }
        } else {
            lemma_trim_start_without_last(s.drop_first());
            assert(s.drop_first().drop_last() =~= s.drop_last().drop_first());
            assert(s.drop_first().last() == s.last());
        }
    }
}

proof fn lemma_trimmed_without_last(s: Seq<char>)
    requires
        s.len() > 0,
        is_white(s.last()),
    ensures
        trimmed(s.drop_last()) == trimmed(s),
{
    lemma_trim_start_without_last(s);
    if trim_start(s).len() == 0 {
        assert(trim_start(s) =~= Seq::empty());
    }
}

proof fn lemma_split_without_first(s: Seq<char>, sep: char)
    requires
        is_mark(sep),
        s.len() > 0,
        is_white(s[0]),
    ensures
        trims(split_on(s.drop_first(), sep)) == trims(split_on(s, sep)),
{
    lemma_first_index(s, sep);
    let k = first_index(s, sep);
    assert(k == 1 + first_index(s.drop_first(), sep));
    let tail = s.drop_first();
    if k >= s.len() {
        assert(trims(split_on(tail, sep)) =~= trims(split_on(s, sep)));
    } else {
        assert(tail.skip(k) =~= s.skip(k + 1));
        assert(tail.take(k - 1) =~= s.take(k).drop_first());
        let rest = split_on(s.skip(k + 1), sep);
        assert(trims(seq![s.take(k)] + rest) =~= seq![trimmed(s.take(k))] + trims(rest));
        assert(trims(seq![tail.take(k - 1)] + rest) =~= seq![trimmed(tail.take(k - 1))] + trims(rest));
    }
}

proof fn lemma_split_without_last(s: Seq<char>, sep: char)
    requires
        is_mark(sep),
        s.len() > 0,
        is_white(s.last()),
    ensures
        trims(split_on(s.drop_last(), sep)) == trims(split_on(s, sep)),
    decreases s.len(),
{
    lemma_first_index(s, sep);
    let k = first_index(s, sep);
    let head = s.drop_last();
    if k >= s.len() {
        lemma_first_index_is(head, sep, head.len() as int);
        lemma_trimmed_without_last(s);
        assert(trims(split_on(head, sep)) =~= trims(split_on(s, sep)));
    } else {
        assert(s.last() != sep);
        assert(k < head.len());
        lemma_first_index_is(head, sep, k);
        assert(head.take(k) =~= s.take(k));
        assert(head.skip(k + 1) =~= s.skip(k + 1).drop_last());
        lemma_split_without_last(s.skip(k + 1), sep);
        let a = split_on(s.skip(k + 1), sep);
        let b = split_on(head.skip(k + 1), sep);
        assert(trims(seq![s.take(k)] + a) =~= seq![trimmed(s.take(k))] + trims(a));
        assert(trims(seq![s.take(k)] + b) =~= seq![trimmed(s.take(k))] + trims(b));
    }
}

pub(crate) proof fn lemma_split_trim_start(s: Seq<char>, sep: char)
    requires
        is_mark(sep),
    ensures
        trims(split_on(trim_start(s), sep)) == trims(split_on(s, sep)),
    decreases s.len(),
{
    if s.len() > 0 && is_white(s[0]) {
        lemma_split_without_first(s, sep);
        lemma_split_trim_start(s.drop_first(), sep);
    }
}

pub(crate) proof fn lemma_split_trim_end(s: Seq<char>, sep: char)
    requires
        is_mark(sep),
    ensures
        trims(split_on(trim_end(s), sep)) == trims(split_on(s, sep)),
    decreases s.len(),
{
    if s.len() > 0 && is_white(s.last()) {
        lemma_split_without_last(s, sep);
        lemma_split_trim_end(s.drop_last(), sep);
    }
}

/// A rule that is accepted as it was written is accepted as it is stored, with the
/// same schedule.
pub proof fn stored_rules_keep_their_meaning(rrule: Seq<char>, schedule: AutomationSchedule)
    requires
        rrule_meaning(rrule, Ok(schedule)),
    ensures
        rrule_meaning(stored_rule(rrule), Ok(schedule)),
{
    let bare = trimmed(rrule);
    lemma_split_trim_start(rrule, ';');
    lemma_split_trim_end(trim_start(rrule), ';');
    lemma_fields_of_trims(split_on(bare, ';'), split_on(rrule, ';'));
    lemma_upper_split(bare, ';');
    lemma_upper_fields(split_on(bare, ';'));
}

/// Two schedules with the same slots.
pub open spec fn same_schedule(a: AutomationSchedule, b: AutomationSchedule) -> bool {
    match (a, b) {
        (
            AutomationSchedule::Minutely { interval_minutes: m },
            AutomationSchedule::Minutely { interval_minutes: n },
        ) => m == n,
        (
            AutomationSchedule::Hourly { interval_hours: m, byday: None },
            AutomationSchedule::Hourly { interval_hours: n, byday: None },
        ) => m == n,
        (
            AutomationSchedule::Hourly { interval_hours: m, byday: Some(c) },
            AutomationSchedule::Hourly { interval_hours: n, byday: Some(d) },
        ) => m == n && c@ == d@,
        (
            AutomationSchedule::Weekly { byday: c, byhour: h, byminute: m },
            AutomationSchedule::Weekly { byday: d, byhour: i, byminute: n },
        ) => c@ == d@ && h == i && m == n,
        _ => false,
    }
}

/// Two readings of a rule that come to the same.
pub open spec fn same_meaning(
    a: Result<AutomationSchedule, ScheduleError>,
    b: Result<AutomationSchedule, ScheduleError>,
) -> bool {
    match (a, b) {
        (Ok(s), Ok(t)) => same_schedule(s, t),
        (Err(e), Err(f)) => e.text() == f.text(),
        _ => false,
    }
}

/// A rule has one meaning: it is accepted with one schedule or refused with one reason.
pub proof fn a_rule_has_one_meaning(
    rrule: Seq<char>,
    a: Result<AutomationSchedule, ScheduleError>,
    b: Result<AutomationSchedule, ScheduleError>,
)
    requires
        rrule_meaning(rrule, a),
        rrule_meaning(rrule, b),
    ensures
        same_meaning(a, b),
{
    match (a, b) {
        (
            Err(ScheduleError::UnsupportedField { key: k, .. }),
            Err(ScheduleError::UnsupportedField { key: l, .. }),
        ) => {
            lex_less_is_a_strict_order(k@, l@, k@);
        },
        _ => {},
    }
}

} // verus!
