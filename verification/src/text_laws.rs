//! What trimming, case, splitting, decimal numbers and the order of texts come to.
use vstd::prelude::*;

use crate::pending::lemma_dec_digits;
use crate::text::{
    dec, dec_int, digits_value, first_index, is_blank, is_control_char, is_white, lemma_first_index,
    lex_less, lower, parsed_u32, split_on, starts_with_seq, text_opt, texts, trim_end, trim_start, trimmed,
    unsigned_part, upper,
};

verus! {

/// White space is the tab, the line and page breaks, the space, and the spaces of Unicode; no
/// other character is.
pub proof fn white_space_is_spaces_and_breaks(c: char)
    ensures
        is_white(c) <==> (c == '\t' || c == '\n' || c == '\u{b}' || c == '\u{c}' || c == '\r' || c
            == ' ' || c == '\u{85}' || c == '\u{a0}' || c == '\u{1680}' || ('\u{2000}' as int
            <= c as int <= '\u{200a}' as int) || c == '\u{2028}' || c == '\u{2029}' || c == '\u{202f}'
            || c == '\u{205f}' || c == '\u{3000}'),
{
}

proof fn lemma_trim_start_cuts(s: Seq<char>) -> (from: int)
    ensures
        0 <= from <= s.len(),
        trim_start(s) == s.skip(from),
        forall|i: int| 0 <= i < from ==> is_white(#[trigger] s[i]),
        from < s.len() ==> !is_white(s[from]),
    decreases s.len(),
{
    if s.len() > 0 && is_white(s[0]) {
        let k = lemma_trim_start_cuts(s.drop_first());
        assert(s.drop_first().skip(k) =~= s.skip(k + 1));
        assert forall|i: int| 0 <= i < k + 1 implies is_white(#[trigger] s[i]) by {
            if i > 0 {
                assert(s.drop_first()[i - 1] == s[i]);
            }
        }
        k + 1
    } else {
        assert(s.skip(0) =~= s);
        0
    }
}

proof fn lemma_trim_end_cuts(s: Seq<char>) -> (to: int)
    ensures
        0 <= to <= s.len(),
        trim_end(s) == s.take(to),
        forall|i: int| to <= i < s.len() ==> is_white(#[trigger] s[i]),
        0 < to ==> !is_white(s[to - 1]),
    decreases s.len(),
{
    if s.len() > 0 && is_white(s.last()) {
        let k = lemma_trim_end_cuts(s.drop_last());
        assert(s.drop_last().take(k) =~= s.take(k));
        assert forall|i: int| k <= i < s.len() implies is_white(#[trigger] s[i]) by {
            if i < s.len() - 1 {
                assert(s.drop_last()[i] == s[i]);
            }
        }
        k
    } else {
        assert(s.take(s.len() as int) =~= s);
        s.len() as int
    }
}

/// Trimming leaves the piece of a text that white space surrounds: what is cut off on either side
/// is all white, and what is left neither begins nor ends with white space.
pub proof fn trimming_cuts_off_white_space_alone(s: Seq<char>)
    ensures
        exists|from: int, to: int|
            {
                &&& 0 <= from <= to <= s.len()
                &&& trimmed(s) == #[trigger] s.subrange(from, to)
                &&& forall|i: int|
                    0 <= i < from || to <= i < s.len() ==> is_white(#[trigger] s[i])
                &&& from < to ==> !is_white(s[from]) && !is_white(s[to - 1])
            },
        is_blank(s) <==> forall|i: int| 0 <= i < s.len() ==> is_white(#[trigger] s[i]),
{
    let from = lemma_trim_start_cuts(s);
    let rest = s.skip(from);
    let k = lemma_trim_end_cuts(rest);
    let to = from + k;
    assert(rest.take(k) =~= s.subrange(from, to));
    assert forall|i: int| 0 <= i < from || to <= i < s.len() implies is_white(#[trigger] s[i]) by {
        if i >= to {
            assert(rest[i - from] == s[i]);
        }
    }
    if from < to {
        assert(rest[0] == s[from]);
        assert(rest[k - 1] == s[to - 1]);
    } else if from < s.len() {
        assert(rest[0] == s[from]);
    }
}

proof fn lemma_char_value(c: char)
    ensures
        c as u32 as int == c as int,
{
}

/// Upper case replaces each small ASCII letter by its capital and nothing else; lower case each
/// capital by its small letter.
pub proof fn letter_case_changes_letters_alone(s: Seq<char>, i: int)
    requires
        0 <= i < s.len(),
    ensures
        upper(s).len() == s.len(),
        lower(s).len() == s.len(),
        'a' as int <= s[i] as int <= 'z' as int ==> upper(s)[i] as int == s[i] as int - 'a' as int
            + 'A' as int,
        (s[i] as int) < 'a' as int || (s[i] as int) > 'z' as int ==> upper(s)[i] == s[i],
        'A' as int <= s[i] as int <= 'Z' as int ==> lower(s)[i] as int == s[i] as int - 'A' as int
            + 'a' as int,
        (s[i] as int) < 'A' as int || (s[i] as int) > 'Z' as int ==> lower(s)[i] == s[i],
{
    lemma_char_value(s[i]);
}

/// Pieces with a separator between them.
pub open spec fn joined(pieces: Seq<Seq<char>>, sep: char) -> Seq<char>
    decreases pieces.len(),
{
    if pieces.len() == 0 {
        Seq::empty()
    } else if pieces.len() == 1 {
        pieces[0]
    } else {
        pieces[0] + seq![sep] + joined(pieces.drop_first(), sep)
    }
}

/// The pieces of a text hold no separator, and with separators between them make up the text.
pub proof fn splitting_undoes_joining(s: Seq<char>, sep: char)
    ensures
        split_on(s, sep).len() > 0,
        joined(split_on(s, sep), sep) == s,
        forall|i: int|
            0 <= i < split_on(s, sep).len() ==> !(#[trigger] split_on(s, sep)[i]).contains(sep),
    decreases s.len(),
{
    lemma_first_index(s, sep);
    let k = first_index(s, sep);
    if k >= s.len() {
    } else {
        let rest = s.skip(k + 1);
        splitting_undoes_joining(rest, sep);
        let pieces = split_on(s, sep);
        assert(pieces.drop_first() =~= split_on(rest, sep));
        assert(s.take(k) + seq![sep] + rest =~= s);
        assert forall|i: int| 0 <= i < pieces.len() implies !(#[trigger] pieces[i]).contains(
            sep,
        ) by {
            if i > 0 {
                assert(pieces[i] == split_on(rest, sep)[i - 1]);
            }
        }
    }
}

/// A text that begins with a piece and a separator splits into that piece and the pieces of the rest.
pub proof fn lemma_split_first(piece: Seq<char>, sep: char, rest: Seq<char>)
    requires
        !piece.contains(sep),
    ensures
        split_on(piece + seq![sep] + rest, sep) == seq![piece] + split_on(rest, sep),
{
    let s = piece + seq![sep] + rest;
    assert forall|i: int| 0 <= i < piece.len() implies s[i] != sep by {
        assert(piece.contains(piece[i]));
    }
    crate::text::lemma_first_index_is(s, sep, piece.len() as int);
    assert(s.take(piece.len() as int) =~= piece);
    assert(s.skip(piece.len() as int + 1) =~= rest);
}

/// A text without a separator is one piece.
pub proof fn lemma_split_none(piece: Seq<char>, sep: char)
    requires
        !piece.contains(sep),
    ensures
        split_on(piece, sep) == seq![piece],
{
    assert forall|i: int| 0 <= i < piece.len() implies piece[i] != sep by {
        assert(piece.contains(piece[i]));
    }
    crate::text::lemma_first_index_is(piece, sep, piece.len() as int);
}

/// Pieces without separators come back from what they were joined to.
pub proof fn joining_undoes_splitting(pieces: Seq<Seq<char>>, sep: char)
    requires
        pieces.len() > 0,
        forall|i: int| 0 <= i < pieces.len() ==> !(#[trigger] pieces[i]).contains(sep),
    ensures
        split_on(joined(pieces, sep), sep) == pieces,
    decreases pieces.len(),
{
    if pieces.len() == 1 {
        lemma_split_none(pieces[0], sep);
        assert(seq![pieces[0]] =~= pieces);
    } else {
        let rest = pieces.drop_first();
        assert forall|i: int| 0 <= i < rest.len() implies !(#[trigger] rest[i]).contains(sep) by {
            assert(rest[i] == pieces[i + 1]);
        }
        joining_undoes_splitting(rest, sep);
        lemma_split_first(pieces[0], sep, joined(rest, sep));
        assert(seq![pieces[0]] + rest =~= pieces);
    }
}

/// A number in decimal: digits alone, the last of them the remainder by ten, before it the number
/// without it, and no zero in front. A negative number has a minus sign before it.
pub proof fn decimals_write_the_number_down(n: nat)
    ensures
        dec(n).len() > 0,
        forall|i: int|
            0 <= i < dec(n).len() ==> '0' as int <= #[trigger] dec(n)[i] as int <= '9' as int,
        dec(n).last() as int == '0' as int + n % 10,
        n < 10 ==> dec(n).len() == 1,
        n >= 10 ==> dec(n).drop_last() == dec(n / 10) && dec(n)[0] != '0',
        dec_int(n as int) == dec(n),
        n > 0 ==> dec_int(-n) == seq!['-'] + dec(n),
    decreases n,
{
    lemma_dec_digits(n);
    if n >= 10 {
        assert(dec(n).drop_last() =~= dec(n / 10));
        decimals_write_the_number_down(n / 10);
        assert(dec(n)[0] == dec(n / 10)[0]);
        if n / 10 < 10 {
            assert(dec(n / 10)[0] == dec(n / 10).last());
        }
    }
}

/// A number in decimal is read back as the number, with or without a plus sign before it.
pub proof fn decimals_are_read_back(n: u32)
    ensures
        parsed_u32(dec(n as nat)) == Some(n),
        parsed_u32(seq!['+'] + dec(n as nat)) == Some(n),
{
    lemma_dec_digits(n as nat);
    let d = dec(n as nat);
    assert((seq!['+'] + d).drop_first() =~= d);
    assert(unsigned_part(d) == d);
}

/// Nothing but digits is read as a number: with another character, without a digit, or with a
/// value over 32 bits, a text is none. Each further digit counts ten times what came before.
pub proof fn only_decimals_are_numbers(s: Seq<char>, c: char)
    ensures
        parsed_u32(Seq::empty()) is None,
        parsed_u32(seq!['+']) is None,
        s.len() > 0 && !('0' as int <= c as int <= '9' as int) ==> parsed_u32(s.push(c)) is None,
        parsed_u32(s) is None && s.len() > 0 && s != seq!['+'] ==> parsed_u32(s.push(c)) is None,
        s.len() > 0 && '0' as int <= c as int <= '9' as int ==> match parsed_u32(s) {
            Some(n) => parsed_u32(s.push(c)) == (if n * 10 + (c as int - '0' as int) <= u32::MAX {
                Some((n * 10 + (c as int - '0' as int)) as u32)
            } else {
                None
            }),
            None => true,
        },
{
    assert(seq!['+'].drop_first() =~= Seq::<char>::empty());
    if s.len() > 0 {
        let t = s.push(c);
        let d = unsigned_part(s);
        assert(unsigned_part(t) =~= d.push(c));
        assert(d.push(c).drop_last() =~= d);
        assert(d.push(c)[d.len() as int] == c);
        if parsed_u32(t) is Some {
            assert forall|i: int| 0 <= i < d.len() implies crate::text::is_digit(
                #[trigger] d[i],
            ) by {
                assert(d.push(c)[i] == d[i]);
            }
            assert(digits_value(d.push(c)) >= digits_value(d) * 10);
            if d.len() == 0 {
                assert(s =~= seq!['+']);
            }
        }
        if parsed_u32(s) is Some && '0' as int <= c as int <= '9' as int {
            assert forall|i: int| 0 <= i < d.push(c).len() implies crate::text::is_digit(
                #[trigger] d.push(c)[i],
            ) by {
                if i < d.len() {
                    assert(d.push(c)[i] == d[i]);
                }
            }
        }
    }
}

/// One text comes before another where, after a common beginning, it ends or has the smaller
/// character.
pub proof fn texts_are_ordered_by_their_first_difference(a: Seq<char>, b: Seq<char>)
    ensures
        lex_less(a, b) <==> exists|k: int|
            {
                &&& 0 <= k <= a.len()
                &&& k < b.len()
                &&& #[trigger] a.take(k) == b.take(k)
                &&& k == a.len() || (k < a.len() && (a[k] as int) < (b[k] as int))
            },
    decreases a.len(),
{
    if b.len() == 0 {
    } else if a.len() == 0 {
        assert(a.take(0) =~= b.take(0));
    } else if a[0] != b[0] {
        if (a[0] as int) < (b[0] as int) {
            assert(a.take(0) =~= b.take(0));
        } else {
            assert forall|k: int| 0 < k <= a.len() && k < b.len() implies #[trigger] a.take(k)
                != b.take(k) by {
                assert(a.take(k)[0] == a[0]);
                assert(b.take(k)[0] == b[0]);
            }
        }
    } else {
        let x = a.drop_first();
        let y = b.drop_first();
        texts_are_ordered_by_their_first_difference(x, y);
        if lex_less(x, y) {
            let k = choose|k: int|
                {
                    &&& 0 <= k <= x.len()
                    &&& k < y.len()
                    &&& #[trigger] x.take(k) == y.take(k)
                    &&& k == x.len() || (k < x.len() && (x[k] as int) < (y[k] as int))
                };
            assert(a.take(k + 1) =~= seq![a[0]] + x.take(k));
            assert(b.take(k + 1) =~= seq![b[0]] + y.take(k));
            assert(a.take(k + 1) == b.take(k + 1));
        }
        if exists|k: int|
            {
                &&& 0 <= k <= a.len()
                &&& k < b.len()
                &&& #[trigger] a.take(k) == b.take(k)
                &&& k == a.len() || (k < a.len() && (a[k] as int) < (b[k] as int))
            } {
            let k = choose|k: int|
                {
                    &&& 0 <= k <= a.len()
                    &&& k < b.len()
                    &&& #[trigger] a.take(k) == b.take(k)
                    &&& k == a.len() || (k < a.len() && (a[k] as int) < (b[k] as int))
                };
            assert(k > 0);
            assert(x.take(k - 1) =~= a.take(k).drop_first());
            assert(y.take(k - 1) =~= b.take(k).drop_first());
            assert(x.take(k - 1) == y.take(k - 1));
        }
    }
}

/// A text begins with another where it is that text and something after it.
pub proof fn a_prefix_stands_in_front(s: Seq<char>, prefix: Seq<char>)
    ensures
        starts_with_seq(s, prefix) <==> exists|rest: Seq<char>| s == #[trigger] (prefix + rest),
{
    if starts_with_seq(s, prefix) {
        assert(s =~= prefix + s.skip(prefix.len() as int));
    }
    if exists|rest: Seq<char>| s == #[trigger] (prefix + rest) {
        let rest = choose|rest: Seq<char>| s == #[trigger] (prefix + rest);
        assert(s.take(prefix.len() as int) =~= prefix);
    }
}

/// Control characters are those below the space, and those from the delete character to the end
/// of the second block of controls.
pub proof fn control_characters_come_in_two_blocks(c: char)
    ensures
        is_control_char(c) <==> (c as int) < ' ' as int || '\u{7f}' as int <= c as int
            <= '\u{9f}' as int,
{
}

/// The texts of a list are those of its strings, one for one, and the text of what is missing is
/// missing.
pub proof fn lists_show_their_texts(list: Seq<String>, i: int, value: Option<String>)
    ensures
        texts(list).len() == list.len(),
        0 <= i < list.len() ==> texts(list)[i] == list[i]@,
        value is None ==> text_opt(value) is None,
        value matches Some(s) ==> text_opt(value) == Some(s@),
{
}

} // verus!
