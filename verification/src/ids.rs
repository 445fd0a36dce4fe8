//! Universally unique identifiers as text.
use vstd::prelude::*;

use crate::storage_id::is_safe_id;
use crate::text::{lemma_first_index_is, lower, lower_char, split_on};

verus! {

pub open spec fn is_hex(c: char) -> bool {
    '0' <= c <= '9' || 'a' <= c <= 'f' || 'A' <= c <= 'F'
}

pub open spec fn is_hyphen_place(i: int) -> bool {
    i == 8 || i == 13 || i == 18 || i == 23
}

/// Thirty-six characters: hexadecimal digits in five groups, with hyphens between.
pub open spec fn is_hyphenated(s: Seq<char>) -> bool {
    &&& s.len() == 36
    &&& forall|i: int|
        0 <= i < 36 ==> if is_hyphen_place(i) {
            #[trigger] s[i] == '-'
        } else {
            is_hex(s[i])
        }
}

/// The identifier as it is written out: hyphenated, in lower case.
pub open spec fn is_uuid_text(s: Seq<char>) -> bool {
    is_hyphenated(s) && lower(s) == s
}

/// Thirty-two digits with hyphens put between the groups.
pub open spec fn hyphenate(s: Seq<char>) -> Seq<char> {
    s.subrange(0, 8) + seq!['-'] + s.subrange(8, 12) + seq!['-'] + s.subrange(12, 16) + seq!['-']
        + s.subrange(16, 20) + seq!['-'] + s.subrange(20, 32)
}

/// The identifier that `s` spells, written out in the usual way. Digits may stand
/// alone or in groups, and groups may stand in braces or behind `urn:uuid:`.
pub open spec fn uuid_of(s: Seq<char>) -> Option<Seq<char>> {
    if s.len() == 32 && (forall|i: int| 0 <= i < 32 ==> is_hex(#[trigger] s[i])) {
        Some(lower(hyphenate(s)))
    } else if is_hyphenated(s) {
        Some(lower(s))
    } else if s.len() == 38 && s[0] == '{' && s[37] == '}' && is_hyphenated(s.subrange(1, 37)) {
        Some(lower(s.subrange(1, 37)))
    } else if s.len() == 45 && lower(s.take(9)) == "urn:uuid:"@ && is_hyphenated(s.skip(9)) {
        Some(lower(s.skip(9)))
    } else {
        None
    }
}

/// Calls `uuid::Uuid::parse_str` and writes the identifier out with its `Display`.
/// The contract says which texts are read, and that the identifier comes back
/// hyphenated and in lower case.
#[verifier::external_body]
pub(crate) fn canonical_uuid(s: &str) -> (r: Option<String>)
    ensures
        match r {
            Some(t) => uuid_of(s@) == Some(t@),
            None => uuid_of(s@) is None,
        },
{
    match uuid::Uuid::parse_str(s) {
        Ok(id) => Some(id.to_string()),
        Err(_) => None,
    }
}

/// Calls `uuid::Uuid::new_v4` and writes the identifier out with its `Display`. The
/// contract says only that it is hyphenated and in lower case: the digits are
/// random.
#[verifier::external_body]
pub(crate) fn new_uuid() -> (r: String)
    ensures
        is_uuid_text(r@),
{
    uuid::Uuid::new_v4().to_string()
}

/// What is read as an identifier and written out is itself read back unchanged.
pub proof fn uuid_text_is_stable(s: Seq<char>)
    ensures
        uuid_of(s) matches Some(t) ==> is_uuid_text(t) && uuid_of(t) == Some(t),
{
    if let Some(t) = uuid_of(s) {
        let body = if s.len() == 32 && (forall|i: int| 0 <= i < 32 ==> is_hex(#[trigger] s[i])) {
            hyphenate(s)
        } else if is_hyphenated(s) {
            s
        } else if s.len() == 38 && s[0] == '{' && s[37] == '}' && is_hyphenated(s.subrange(1, 37)) {
            s.subrange(1, 37)
        } else {
            s.skip(9)
        };
        assert(is_hyphenated(body));
        assert(t == lower(body));
        assert forall|i: int| 0 <= i < 36 implies if is_hyphen_place(i) {
            #[trigger] t[i] == '-'
        } else {
            is_hex(t[i])
        } by {
            assert(t[i] == lower_char(body[i]));
            assert(if is_hyphen_place(i) { body[i] == '-' } else { is_hex(body[i]) });
        }
        assert(lower(t) =~= t);
    }
}

/// An identifier that was written out can name a file.
pub proof fn uuid_text_is_a_safe_id(s: Seq<char>)
    requires
        is_uuid_text(s),
    ensures
        is_safe_id(s),
{
    assert forall|i: int| 0 <= i < s.len() implies s[i] != '/' by {
        assert(if is_hyphen_place(i) { s[i] == '-' } else { is_hex(s[i]) });
    }
    lemma_first_index_is(s, '/', s.len() as int);
    assert(split_on(s, '/') == seq![s]);
    reveal_strlit(".");
    reveal_strlit("..");
}

} // verus!
