//! A JSON value as the provider payloads are read: objects keep their members
//! in order, and a number carries its decimal text and, where it is an integer
//! that fits, its `i64` value.

use vstd::prelude::*;
use crate::decimal::{chars_of, parse_i64, spec_parse_i64};
use crate::float_text::{is_float_text, is_float_text_exec};

verus! {

/// A JSON number: its decimal text, and its value where it is an integer
/// that fits in `i64`.
#[derive(Debug)]
pub struct JsonNumber {
    pub text: String,
    pub as_i64: Option<i64>,
}

/// A JSON value.
#[derive(Debug)]
pub enum Json {
    Null,
    Bool(bool),
    Number(JsonNumber),
    Str(String),
    Array(Vec<Json>),
    Object(Vec<(String, Json)>),
}

/// The value of the first member named `key`.
pub open spec fn entry_value(entries: Seq<(String, Json)>, key: Seq<char>) -> Option<Json>
    decreases entries.len(),
{
    if entries.len() == 0 {
        None
    } else if entries[0].0@ == key {
        Some(entries[0].1)
    } else {
        entry_value(entries.drop_first(), key)
    }
}

/// The member `key` of an object; nothing for any other value.
pub open spec fn member(v: Json, key: Seq<char>) -> Option<Json> {
    match v {
        Json::Object(entries) => entry_value(entries@, key),
        _ => None,
    }
}

/// A string value's text.
pub open spec fn text_of(v: Option<Json>) -> Option<Seq<char>> {
    match v {
        Some(Json::Str(s)) => Some(s@),
        _ => None,
    }
}

/// An integer read from a value: an integer number that fits in `i64`, or a
/// string that `str::parse::<i64>` accepts.
pub open spec fn json_i64(v: Option<Json>) -> Option<i64> {
    match v {
        Some(Json::Number(n)) => n.as_i64,
        Some(Json::Str(s)) => spec_parse_i64(s@),
        _ => None,
    }
}

/// The decimal text of a price read from a value: any number, or a string
/// that `str::parse::<f64>` accepts.
pub open spec fn json_price(v: Option<Json>) -> Option<Seq<char>> {
    match v {
        Some(Json::Number(n)) => Some(n.text@),
        Some(Json::Str(s)) => if is_float_text(s@) {
            Some(s@)
        } else {
            None
        },
        _ => None,
    }
}

/// Two strings hold the same characters.
pub fn text_eq(a: &str, b: &str) -> (r: bool)
    ensures
        r == (a@ == b@),
{
    let x = chars_of(a);
    let y = chars_of(b);
    if x.len() != y.len() {
        return false;
    }
    let mut i: usize = 0;
    while i < x.len()
        invariant
            x.len() == y.len(),
            x@ == a@,
            y@ == b@,
            i <= x.len(),
            forall|j: int| 0 <= j < i ==> x@[j] == y@[j],
        decreases x.len() - i,
    {
        if x[i] != y[i] {
            assert(a@[i as int] != b@[i as int]);
            return false;
        }
        i = i + 1;
    }
    assert(x@ =~= y@);
    true
}

impl Json {
    /// The member `key` of an object, as `serde_json::Value::get` finds it.
    pub fn get(&self, key: &str) -> (r: Option<&Json>)
        ensures
            (r is Some) == (member(*self, key@) is Some),
            r matches Some(x) ==> *x == member(*self, key@).unwrap(),
    {
        match self {
            Json::Object(entries) => {
                let mut i: usize = 0;
                assert(entries@.skip(0) =~= entries@);
                while i < entries.len()
                    invariant
                        i <= entries.len(),
                        *self == Json::Object(*entries),
                        entry_value(entries@, key@) == entry_value(entries@.skip(i as int), key@),
                    decreases entries.len() - i,
                {
                    let ghost rest = entries@.skip(i as int);
                    assert(rest[0] == entries@[i as int]);
                    assert(rest.drop_first() =~= entries@.skip(i + 1));
                    if text_eq(entries[i].0.as_str(), key) {
                        assert(entry_value(rest, key@) == Some(rest[0].1));
                        return Some(&entries[i].1);
                    }
                    i = i + 1;
                }
                assert(entries@.skip(i as int).len() == 0);
                None
            },
            _ => None,
        }
    }
}

/// The text of a string value.
pub fn as_text(v: Option<&Json>) -> (r: Option<&String>)
    ensures
        (r is Some) == (text_of(match v { Some(x) => Some(*x), None => None }) is Some),
        r matches Some(s) ==> s@ == text_of(match v { Some(x) => Some(*x), None => None }).unwrap(),
{
    match v {
        Some(Json::Str(s)) => Some(s),
        _ => None,
    }
}

/// Reads an integer from a value, as the original `parse_i64` does.
pub fn field_i64(v: Option<&Json>) -> (r: Option<i64>)
    ensures
        r == json_i64(match v { Some(x) => Some(*x), None => None }),
{
    match v {
        Some(Json::Number(n)) => n.as_i64,
        Some(Json::Str(s)) => parse_i64(s.as_str()),
        _ => None,
    }
}

/// Reads the decimal text of a price from a value: where the original reads
/// an `f64`, this keeps the text that it would read it from.
pub fn field_price(v: Option<&Json>) -> (r: Option<String>)
    ensures
        (r is Some) == (json_price(match v { Some(x) => Some(*x), None => None }) is Some),
        r matches Some(s) ==> s@ == json_price(match v { Some(x) => Some(*x), None => None }).unwrap(),
{
    match v {
        Some(Json::Number(n)) => Some(n.text.clone()),
        Some(Json::Str(s)) => {
            if is_float_text_exec(s.as_str()) {
                Some(s.clone())
            } else {
                None
            }
        },
        _ => None,
    }
}

} // verus!
