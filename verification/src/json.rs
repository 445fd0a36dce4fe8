//! JSON values.
use vstd::prelude::*;
use vstd::string::*;

use crate::text::{copy_text, same_text};

verus! {

/// A JSON number, carried as it came.
#[verifier::external_type_specification]
#[verifier::external_body]
pub struct ExJsonNumber(serde_json::Number);

/// A value as `serde_json` holds it.
#[verifier::external_type_specification]
#[verifier::external_body]
pub struct ExJsonValue(serde_json::Value);

/// A JSON value.
#[derive(Debug)]
pub enum Json {
    Null,
    Bool(bool),
    Number(serde_json::Number),
    Text(String),
    Array(Vec<Json>),
    Object(Vec<Member>),
}

/// A key of an object with its value.
#[derive(Debug)]
pub struct Member {
    pub key: String,
    pub value: Json,
}

/// The value of the first member with key `key`.
pub open spec fn member(members: Seq<Member>, key: Seq<char>) -> Option<Json>
    decreases members.len(),
{
    if members.len() == 0 {
        None
    } else if members[0].key@ == key {
        Some(members[0].value)
    } else {
        member(members.drop_first(), key)
    }
}

/// The value under `key`, where the value is an object that has it.
pub open spec fn field(value: Json, key: Seq<char>) -> Option<Json> {
    match value {
        Json::Object(members) => member(members@, key),
        _ => None,
    }
}

/// The text that a value is, where it is one.
pub open spec fn text_of(value: Option<Json>) -> Option<Seq<char>> {
    match value {
        Some(Json::Text(s)) => Some(s@),
        _ => None,
    }
}

/// The text under `key`.
pub open spec fn text_field(value: Json, key: Seq<char>) -> Option<Seq<char>> {
    text_of(field(value, key))
}

/// A text, or the empty text where there is none.
pub open spec fn or_empty(value: Option<Seq<char>>) -> Seq<char> {
    match value {
        Some(s) => s,
        None => Seq::empty(),
    }
}

impl Json {
    /// The value under `key`, where this is an object that has it.
    pub fn get(&self, key: &str) -> (r: Option<&Json>)
        ensures
            match r {
                Some(v) => field(*self, key@) == Some(*v),
                None => field(*self, key@) is None,
            },
    {
        match self {
            Json::Object(members) => {
                let mut i: usize = 0;
                assert(members@.skip(0) =~= members@);
                while i < members.len()
                    invariant
                        i <= members@.len(),
                        field(*self, key@) == member(members@.skip(i as int), key@),
                    decreases members@.len() - i,
                {
                    assert(members@.skip(i as int).drop_first() =~= members@.skip(i + 1));
                    if same_text(members[i].key.as_str(), key) {
                        return Some(&members[i].value);
                    }
                    i += 1;
                }
                None
            },
            _ => None,
        }
    }

    /// Takes out the value under `key`.
    pub fn take(self, key: &str) -> (r: Option<Json>)
        ensures
            r == field(self, key@),
    {
        let ghost whole = self;
        match self {
            Json::Object(members) => {
                let mut rest = members;
                while rest.len() > 0
                    invariant
                        whole == self,
                        field(whole, key@) == member(rest@, key@),
                    decreases rest@.len(),
                {
                    let ghost before = rest@;
                    let first = rest.remove(0);
                    assert(rest@ =~= before.drop_first());
                    if same_text(first.key.as_str(), key) {
                        return Some(first.value);
                    }
                }
                None
            },
            _ => None,
        }
    }

    /// A copy of the text under `key`.
    pub fn text(&self, key: &str) -> (r: Option<String>)
        ensures
            match r {
                Some(s) => text_field(*self, key@) == Some(s@),
                None => text_field(*self, key@) is None,
            },
    {
        match self.get(key) {
            Some(Json::Text(s)) => Some(copy_text(s.as_str())),
            _ => None,
        }
    }

    /// A copy of the text under `key`, or the empty text.
    pub fn text_or_empty(&self, key: &str) -> (r: String)
        ensures
            r@ == or_empty(text_field(*self, key@)),
    {
        match self.text(key) {
            Some(s) => s,
            None => String::new(),
        }
    }
}

/// How `serde_json` writes a value on one line.
pub uninterp spec fn json_text(value: Json) -> Seq<char>;

/// Turns a value into `serde_json::Value`, part by part.
#[verifier::external_body]
fn outside_value(value: &Json) -> serde_json::Value {
    match value {
        Json::Null => serde_json::Value::Null,
        Json::Bool(b) => serde_json::Value::Bool(*b),
        Json::Number(n) => serde_json::Value::Number(n.clone()),
        Json::Text(s) => serde_json::Value::String(s.clone()),
        Json::Array(items) => serde_json::Value::Array(items.iter().map(outside_value).collect()),
        Json::Object(members) => serde_json::Value::Object(
            members.iter().map(|m| (m.key.clone(), outside_value(&m.value))).collect()),
    }
}

/// Calls `serde_json::Value`'s `Display`, which writes the value on one line. The
/// contract gives what comes back a name: it depends on the value alone.
#[verifier::external_body]
pub(crate) fn render(value: &Json) -> (r: String)
    ensures
        r@ == json_text(*value),
{
    outside_value(value).to_string()
}

/// How `serde_json` writes a value over several lines.
pub uninterp spec fn json_pretty(value: Json) -> Seq<char>;

/// Calls `serde_json::to_string_pretty`, which writes the value over several lines. A
/// value cannot fail to be written: its keys are texts. The contract gives what comes
/// back a name: it depends on the value alone.
#[verifier::external_body]
pub(crate) fn render_pretty(value: &Json) -> (r: String)
    ensures
        r@ == json_pretty(*value),
{
    let value = outside_value(value);
    serde_json::to_string_pretty(&value).unwrap_or_else(|_| value.to_string())
}

} // verus!
