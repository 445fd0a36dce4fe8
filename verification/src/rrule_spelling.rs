//! What a rule spells, however it is written.
//!
//! Letter case, white space around segments, keys, values and days, blank segments, and the
//! order of segments with different keys make no difference to what a rule means.
use vstd::prelude::*;

use crate::automation_laws::trimming_is_stable;
use crate::rrule::{
    all_supported, byday_days, byday_meaning, interval_of, rrule_fields, rrule_meaning,
    AutomationFrequency, AutomationSchedule, ScheduleError,
};
use crate::rrule_laws::{
    lemma_split_trim_end, lemma_split_trim_start, lemma_upper_first_index, lemma_upper_split,
    lemma_upper_trimmed, lemma_upper_upper, same_schedule, trims, uppers,
};
use crate::text::{
    all_digits, first_index, is_blank, lemma_first_index, lemma_first_index_is, parsed_u32,
    split_on, trim_start, trimmed, unsigned_part, upper,
};

verus! {

/// What one segment of a rule spells.
pub enum Segment {
    Blank,
    /// A segment without an equals sign.
    Broken,
    Field { key: Seq<char>, words: Seq<Seq<char>> },
}

/// The words of a value, which commas separate, without white space around them.
pub open spec fn words_of(value: Seq<char>) -> Seq<Seq<char>> {
    trims(split_on(value, ','))
}

/// What a segment spells.
pub open spec fn segment_meaning(segment: Seq<char>) -> Segment {
    let item = trimmed(segment);
    let eq = first_index(item, '=');
    if item.len() == 0 {
        Segment::Blank
    } else if eq >= item.len() {
        Segment::Broken
    } else {
        Segment::Field {
            key: upper(trimmed(item.take(eq))),
            words: words_of(upper(trimmed(item.skip(eq + 1)))),
        }
    }
}

/// What the segments spell that are not blank, in order.
pub open spec fn spelled(segments: Seq<Seq<char>>) -> Seq<Segment>
    decreases segments.len(),
{
    if segments.len() == 0 {
        Seq::empty()
    } else {
        let before = spelled(segments.drop_last());
        match segment_meaning(segments.last()) {
            Segment::Blank => before,
            segment => before.push(segment),
        }
    }
}

/// What a rule spells.
pub open spec fn spelling(rrule: Seq<char>) -> Seq<Segment> {
    spelled(split_on(rrule, ';'))
}

/// No key stands twice.
pub open spec fn keys_differ(segments: Seq<Segment>) -> bool {
    forall|i: int, j: int|
        #![trigger segments[i], segments[j]]
        0 <= i < j < segments.len() && segments[i] is Field && segments[j] is Field
            ==> segments[i]->key != segments[j]->key
}

/// Two rules are both refused, or accepted with the same slots.
pub open spec fn same_outcome(
    a: Result<AutomationSchedule, ScheduleError>,
    b: Result<AutomationSchedule, ScheduleError>,
) -> bool {
    match (a, b) {
        (Ok(s), Ok(t)) => same_schedule(s, t),
        (Err(_), Err(_)) => true,
        _ => false,
    }
}

/// The words under each key, the last of a key's values counting, unless a segment is broken.
spec fn words_by_key(segments: Seq<Segment>) -> Option<Map<Seq<char>, Seq<Seq<char>>>>
    decreases segments.len(),
{
    if segments.len() == 0 {
        Some(Map::empty())
    } else {
        match (words_by_key(segments.drop_last()), segments.last()) {
            (None, _) => None,
            (Some(m), Segment::Blank) => Some(m),
            (Some(_), Segment::Broken) => None,
            (Some(m), Segment::Field { key, words }) => Some(m.insert(key, words)),
        }
    }
}

/// The fields hold these words, without white space around their values.
spec fn hold_words(fields: Map<Seq<char>, Seq<char>>, m: Map<Seq<char>, Seq<Seq<char>>>) -> bool {
    &&& forall|k: Seq<char>| #[trigger] fields.contains_key(k) <==> m.contains_key(k)
    &&& forall|k: Seq<char>| #[trigger]
        fields.contains_key(k) ==> words_of(fields[k]) == m[k] && trimmed(fields[k]) == fields[k]
}

proof fn lemma_fields_hold_words(segments: Seq<Seq<char>>)
    ensures
        match words_by_key(spelled(segments)) {
            None => rrule_fields(segments) is Err,
            Some(m) => rrule_fields(segments) matches Ok(fields) && hold_words(fields, m),
        },
    decreases segments.len(),
{
    if segments.len() > 0 {
        let init = segments.drop_last();
        lemma_fields_hold_words(init);
        let before = spelled(init);
        let item = trimmed(segments.last());
        let eq = first_index(item, '=');
        match segment_meaning(segments.last()) {
            Segment::Blank => {},
            segment => {
                assert(before.push(segment).drop_last() =~= before);
                if let Segment::Field { key, words } = segment {
                    let value = trimmed(item.skip(eq + 1));
                    trimming_is_stable(item.skip(eq + 1));
                    lemma_upper_trimmed(value);
                }
            },
        }
    }
}

proof fn lemma_one_word(a: Seq<char>, b: Seq<char>)
    requires
        words_of(a) == words_of(b),
        trimmed(a) == a,
        trimmed(b) == b,
        first_index(a, ',') >= a.len(),
    ensures
        a == b,
{
    assert(split_on(a, ',') == seq![a]);
    assert(words_of(a).len() == 1);
    lemma_first_index(b, ',');
    if first_index(b, ',') < b.len() {
        let rest = split_on(b.skip(first_index(b, ',') + 1), ',');
        lemma_split_is_not_empty(b.skip(first_index(b, ',') + 1));
        assert(words_of(b).len() == 1 + rest.len());
    } else {
        assert(split_on(b, ',') == seq![b]);
        assert(words_of(a)[0] == a);
        assert(words_of(b)[0] == b);
    }
}

proof fn lemma_split_is_not_empty(s: Seq<char>)
    ensures
        split_on(s, ',').len() > 0,
{
}

proof fn lemma_no_number(s: Seq<char>)
    requires
        first_index(s, ',') < s.len(),
    ensures
        parsed_u32(s) is None,
{
    lemma_first_index(s, ',');
    let k = first_index(s, ',');
    let d = unsigned_part(s);
    if all_digits(d) {
        if d == s {
            assert(d[k] == ',');
        } else {
            assert(d[k - 1] == ',');
        }
    }
}

proof fn lemma_same_word(a: Seq<char>, b: Seq<char>, word: Seq<char>)
    requires
        words_of(a) == words_of(b),
        trimmed(a) == a,
        trimmed(b) == b,
        first_index(word, ',') >= word.len(),
    ensures
        a == word <==> b == word,
{
    if a == word {
        lemma_one_word(a, b);
    } else if b == word {
        lemma_one_word(b, a);
    }
}

proof fn lemma_same_number(a: Seq<char>, b: Seq<char>)
    requires
        words_of(a) == words_of(b),
        trimmed(a) == a,
        trimmed(b) == b,
    ensures
        parsed_u32(a) == parsed_u32(b),
{
    if first_index(a, ',') >= a.len() {
        lemma_one_word(a, b);
    } else if first_index(b, ',') >= b.len() {
        lemma_one_word(b, a);
    } else {
        lemma_no_number(a);
        lemma_no_number(b);
    }
}

proof fn lemma_same_tokens(a: Seq<Seq<char>>, b: Seq<Seq<char>>)
    requires
        trims(a) == trims(b),
    ensures
        byday_days(a) == byday_days(b),
    decreases a.len(),
{
    assert(trims(a).len() == a.len() && trims(b).len() == b.len());
    if a.len() > 0 {
        assert(trims(a.drop_last()) =~= trims(a).drop_last());
        assert(trims(b.drop_last()) =~= trims(b).drop_last());
        lemma_same_tokens(a.drop_last(), b.drop_last());
        assert(trims(a).last() == trimmed(a.last()));
        assert(trims(b).last() == trimmed(b.last()));
    }
}

proof fn lemma_plain_words()
    ensures
        first_index("MINUTELY"@, ',') >= "MINUTELY"@.len(),
        first_index("HOURLY"@, ',') >= "HOURLY"@.len(),
        first_index("WEEKLY"@, ',') >= "WEEKLY"@.len(),
{
    reveal_strlit("MINUTELY");
    reveal_strlit("HOURLY");
    reveal_strlit("WEEKLY");
    lemma_first_index_is("MINUTELY"@, ',', 8);
    lemma_first_index_is("HOURLY"@, ',', 6);
    lemma_first_index_is("WEEKLY"@, ',', 6);
}

proof fn lemma_same_words_mean_the_same(
    a: Seq<char>,
    b: Seq<char>,
    ra: Result<AutomationSchedule, ScheduleError>,
    rb: Result<AutomationSchedule, ScheduleError>,
)
    requires
        rrule_meaning(a, ra),
        rrule_meaning(b, rb),
        words_by_key(spelling(a)) == words_by_key(spelling(b)),
    ensures
        same_outcome(ra, rb),
{
    lemma_fields_hold_words(split_on(a, ';'));
    lemma_fields_hold_words(split_on(b, ';'));
    if let Some(m) = words_by_key(spelling(a)) {
        let f = rrule_fields(split_on(a, ';'))->Ok_0;
        let g = rrule_fields(split_on(b, ';'))->Ok_0;
        assert forall|k: Seq<char>| #[trigger] f.contains_key(k) <==> g.contains_key(k) by {
            assert(m.contains_key(k) <==> f.contains_key(k));
        }
        if f.contains_key("FREQ"@) {
            lemma_plain_words();
            lemma_same_word(f["FREQ"@], g["FREQ"@], "MINUTELY"@);
            lemma_same_word(f["FREQ"@], g["FREQ"@], "HOURLY"@);
            lemma_same_word(f["FREQ"@], g["FREQ"@], "WEEKLY"@);
        }
        if f.contains_key("INTERVAL"@) {
            lemma_same_number(f["INTERVAL"@], g["INTERVAL"@]);
        }
        if f.contains_key("BYHOUR"@) {
            lemma_same_number(f["BYHOUR"@], g["BYHOUR"@]);
        }
        if f.contains_key("BYMINUTE"@) {
            lemma_same_number(f["BYMINUTE"@], g["BYMINUTE"@]);
        }
        if f.contains_key("BYDAY"@) {
            lemma_same_tokens(split_on(f["BYDAY"@], ','), split_on(g["BYDAY"@], ','));
        }
        assert(interval_of(f) == interval_of(g));
        assert(f.contains_key("BYDAY"@) ==> byday_meaning(f["BYDAY"@]) == byday_meaning(
            g["BYDAY"@],
        ));
        assert forall|freq: AutomationFrequency| #[trigger]
            all_supported(f, freq) == all_supported(g, freq) by {
            if all_supported(f, freq) {
                assert forall|k: Seq<char>| #[trigger] g.contains_key(k) implies freq.allows(k) by {
                    assert(f.contains_key(k));
                }
            }
            if all_supported(g, freq) {
                assert forall|k: Seq<char>| #[trigger] f.contains_key(k) implies freq.allows(k) by {
                    assert(g.contains_key(k));
                }
            }
        }
    }
}

// Laws -----------------------------------------------------------------------
/// Rules that spell the same mean the same. What a rule spells leaves out letter case, white
/// space around segments, keys, values and the days of a list, and blank segments.
pub proof fn the_same_spelling_means_the_same(
    a: Seq<char>,
    b: Seq<char>,
    ra: Result<AutomationSchedule, ScheduleError>,
    rb: Result<AutomationSchedule, ScheduleError>,
)
    requires
        rrule_meaning(a, ra),
        rrule_meaning(b, rb),
        spelling(a) == spelling(b),
    ensures
        same_outcome(ra, rb),
{
    lemma_same_words_mean_the_same(a, b, ra, rb);
}

proof fn lemma_words_by_key(segments: Seq<Segment>)
    ensures
        words_by_key(segments) is None <==> segments.contains(Segment::Broken),
        words_by_key(segments) matches Some(m) ==> {
            &&& forall|k: Seq<char>| #[trigger]
                m.contains_key(k) ==> segments.contains(Segment::Field { key: k, words: m[k] })
            &&& forall|i: int|
                #![trigger segments[i]]
                0 <= i < segments.len() && segments[i] is Field ==> m.contains_key(
                    segments[i]->key,
                )
        },
    decreases segments.len(),
{
    if segments.len() > 0 {
        let init = segments.drop_last();
        let n = segments.len() - 1;
        lemma_words_by_key(init);
        assert forall|x: Segment| init.contains(x) implies segments.contains(x) by {
            let i = choose|i: int| 0 <= i < init.len() && init[i] == x;
            assert(segments[i] == x);
        }
        assert forall|x: Segment| segments.contains(x) && x != segments[n] implies init.contains(
            x,
        ) by {
            let i = choose|i: int| 0 <= i < segments.len() && segments[i] == x;
            assert(init[i] == x);
        }
        assert(segments.contains(segments[n]));
        if let Some(m) = words_by_key(segments) {
            assert forall|i: int|
                #![trigger segments[i]]
                0 <= i < segments.len() && segments[i] is Field implies m.contains_key(
                segments[i]->key,
            ) by {
                if i < n {
                    assert(init[i] == segments[i]);
                }
            }
        }
    }
}

/// The order of a rule's segments makes no difference where no key stands twice.
pub proof fn the_order_of_segments_does_not_matter(
    a: Seq<char>,
    b: Seq<char>,
    ra: Result<AutomationSchedule, ScheduleError>,
    rb: Result<AutomationSchedule, ScheduleError>,
)
    requires
        rrule_meaning(a, ra),
        rrule_meaning(b, rb),
        keys_differ(spelling(a)),
        forall|x: Segment| #[trigger] spelling(a).contains(x) <==> spelling(b).contains(x),
    ensures
        same_outcome(ra, rb),
{
    let (s, t) = (spelling(a), spelling(b));
    lemma_words_by_key(s);
    lemma_words_by_key(t);
    assert(s.contains(Segment::Broken) <==> t.contains(Segment::Broken));
    if let (Some(m), Some(n)) = (words_by_key(s), words_by_key(t)) {
        assert forall|k: Seq<char>| #[trigger] m.contains_key(k) implies n.contains_key(k) && m[k]
            == n[k] by {
            let x = Segment::Field { key: k, words: m[k] };
            assert(s.contains(x));
            assert(t.contains(x));
            let i = choose|i: int| 0 <= i < t.len() && t[i] == x;
            assert(t[i] is Field);
            let y = Segment::Field { key: k, words: n[k] };
            assert(t.contains(y));
            assert(s.contains(y));
            let p = choose|p: int| 0 <= p < s.len() && s[p] == x;
            let q = choose|q: int| 0 <= q < s.len() && s[q] == y;
            if p < q {
                assert(s[p]->key != s[q]->key);
            } else if q < p {
                assert(s[q]->key != s[p]->key);
            }
        }
        assert forall|k: Seq<char>| #[trigger] n.contains_key(k) implies m.contains_key(k) by {
            let y = Segment::Field { key: k, words: n[k] };
            assert(t.contains(y));
            assert(s.contains(y));
            let q = choose|q: int| 0 <= q < s.len() && s[q] == y;
            assert(s[q] is Field);
        }
        assert(m =~= n);
    }
    lemma_same_words_mean_the_same(a, b, ra, rb);
}

proof fn lemma_upper_segment(segment: Seq<char>)
    ensures
        segment_meaning(upper(segment)) == segment_meaning(segment),
{
    let item = trimmed(segment);
    lemma_upper_trimmed(segment);
    lemma_upper_first_index(item, '=');
    lemma_first_index(item, '=');
    let eq = first_index(item, '=');
    if eq < item.len() {
        assert(upper(item).take(eq) =~= upper(item.take(eq)));
        assert(upper(item).skip(eq + 1) =~= upper(item.skip(eq + 1)));
        lemma_upper_trimmed(item.take(eq));
        lemma_upper_trimmed(item.skip(eq + 1));
        lemma_upper_upper(trimmed(item.take(eq)));
        lemma_upper_upper(trimmed(item.skip(eq + 1)));
    }
}

proof fn lemma_upper_spelled(segments: Seq<Seq<char>>)
    ensures
        spelled(uppers(segments)) == spelled(segments),
    decreases segments.len(),
{
    if segments.len() > 0 {
        assert(uppers(segments).drop_last() =~= uppers(segments.drop_last()));
        lemma_upper_spelled(segments.drop_last());
        lemma_upper_segment(segments.last());
    }
}

/// Letter case makes no difference.
pub proof fn letter_case_does_not_matter(
    a: Seq<char>,
    b: Seq<char>,
    ra: Result<AutomationSchedule, ScheduleError>,
    rb: Result<AutomationSchedule, ScheduleError>,
)
    requires
        rrule_meaning(a, ra),
        rrule_meaning(b, rb),
        upper(a) == upper(b),
    ensures
        same_outcome(ra, rb),
{
    lemma_upper_split(a, ';');
    lemma_upper_split(b, ';');
    lemma_upper_spelled(split_on(a, ';'));
    lemma_upper_spelled(split_on(b, ';'));
    the_same_spelling_means_the_same(a, b, ra, rb);
}

proof fn lemma_trimmed_spelled(a: Seq<Seq<char>>, b: Seq<Seq<char>>)
    requires
        trims(a) == trims(b),
    ensures
        spelled(a) == spelled(b),
    decreases a.len(),
{
    assert(trims(a).len() == a.len() && trims(b).len() == b.len());
    if a.len() > 0 {
        assert(trims(a.drop_last()) =~= trims(a).drop_last());
        assert(trims(b.drop_last()) =~= trims(b).drop_last());
        lemma_trimmed_spelled(a.drop_last(), b.drop_last());
        assert(trims(a).last() == trimmed(a.last()));
        assert(trims(b).last() == trimmed(b.last()));
    }
}

/// White space around segments makes no difference.
pub proof fn white_space_around_segments_does_not_matter(
    a: Seq<char>,
    b: Seq<char>,
    ra: Result<AutomationSchedule, ScheduleError>,
    rb: Result<AutomationSchedule, ScheduleError>,
)
    requires
        rrule_meaning(a, ra),
        rrule_meaning(b, rb),
        trims(split_on(a, ';')) == trims(split_on(b, ';')),
    ensures
        same_outcome(ra, rb),
{
    lemma_trimmed_spelled(split_on(a, ';'), split_on(b, ';'));
    the_same_spelling_means_the_same(a, b, ra, rb);
}

proof fn lemma_words_of_value(v: Seq<char>)
    ensures
        words_of(upper(trimmed(v))) == uppers(words_of(v)),
{
    lemma_split_trim_start(v, ',');
    lemma_split_trim_end(trim_start(v), ',');
    let bare = trimmed(v);
    lemma_upper_split(bare, ',');
    let pieces = split_on(bare, ',');
    assert forall|i: int| 0 <= i < pieces.len() implies trimmed(upper(pieces[i])) == upper(
        trimmed(#[trigger] pieces[i]),
    ) by {
        lemma_upper_trimmed(pieces[i]);
    }
    assert(trims(uppers(pieces)) =~= uppers(trims(pieces)));
}

/// White space around keys, values and the days of a list makes no difference: segments spell
/// the same where their keys and the words of their values do.
pub proof fn white_space_around_words_does_not_matter(a: Seq<char>, b: Seq<char>)
    requires
        first_index(trimmed(a), '=') < trimmed(a).len(),
        first_index(trimmed(b), '=') < trimmed(b).len(),
        ({
            let (k, l) = (first_index(trimmed(a), '='), first_index(trimmed(b), '='));
            &&& trimmed(trimmed(a).take(k)) == trimmed(trimmed(b).take(l))
            &&& words_of(trimmed(a).skip(k + 1)) == words_of(trimmed(b).skip(l + 1))
        }),
    ensures
        segment_meaning(a) == segment_meaning(b),
{
    let (k, l) = (first_index(trimmed(a), '='), first_index(trimmed(b), '='));
    let (v, w) = (trimmed(a).skip(k + 1), trimmed(b).skip(l + 1));
    lemma_words_of_value(v);
    lemma_words_of_value(w);
}

proof fn lemma_spelled_without(segments: Seq<Seq<char>>, i: int)
    requires
        0 <= i < segments.len(),
        is_blank(segments[i]),
    ensures
        spelled(segments.remove(i)) == spelled(segments),
    decreases segments.len(),
{
    let rest = segments.remove(i);
    if i == segments.len() - 1 {
        assert(rest =~= segments.drop_last());
    } else {
        assert(segments.drop_last().remove(i) =~= rest.drop_last());
        assert(rest.last() == segments.last());
        lemma_spelled_without(segments.drop_last(), i);
    }
}

/// A blank segment makes no difference.
pub proof fn blank_segments_do_not_matter(
    a: Seq<char>,
    b: Seq<char>,
    i: int,
    ra: Result<AutomationSchedule, ScheduleError>,
    rb: Result<AutomationSchedule, ScheduleError>,
)
    requires
        rrule_meaning(a, ra),
        rrule_meaning(b, rb),
        0 <= i < split_on(b, ';').len(),
        is_blank(split_on(b, ';')[i]),
        split_on(a, ';') == split_on(b, ';').remove(i),
    ensures
        same_outcome(ra, rb),
{
    lemma_spelled_without(split_on(b, ';'), i);
    the_same_spelling_means_the_same(a, b, ra, rb);
}

/// A rule that is accepted names its frequency, and an interval where it does not mean one of
/// one; a rule that names another frequency, or none, is refused.
pub proof fn accepted_rules_name_their_frequency(
    rrule: Seq<char>,
    r: Result<AutomationSchedule, ScheduleError>,
)
    requires
        rrule_meaning(rrule, r),
    ensures
        r matches Ok(schedule) ==> {
            &&& rrule_fields(split_on(rrule, ';')) matches Ok(fields)
            &&& fields.contains_key("FREQ"@)
            &&& match schedule {
                AutomationSchedule::Minutely { interval_minutes } => fields["FREQ"@] == "MINUTELY"@
                    && interval_of(fields) == Some(interval_minutes),
                AutomationSchedule::Hourly { interval_hours, .. } => fields["FREQ"@] == "HOURLY"@
                    && interval_of(fields) == Some(interval_hours),
                AutomationSchedule::Weekly { .. } => fields["FREQ"@] == "WEEKLY"@,
            }
        },
{
}

} // verus!
