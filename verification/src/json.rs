//! JSON documents as the media servers send them, and the lookups that read
//! them. A member that is missing reads like `null`.
use vstd::prelude::*;
use crate::text::{opt_view, owned, str_equal};

verus! {

/// A JSON number: a non-negative integer, a negative integer, or any other
/// number (whose value nothing here reads).
#[derive(Clone, Copy, Debug, PartialEq, Eq, Structural)]
pub enum JsonNumber {
    PosInt(u64),
    NegInt(i64),
    Float,
}

/// A JSON value. An object keeps its members in order.
#[derive(Debug, PartialEq)]
pub enum JsonValue {
    Null,
    Bool(bool),
    Number(JsonNumber),
    String(String),
    Array(Vec<JsonValue>),
    Object(Vec<(String, JsonValue)>),
}

/// The first member at or after `i` with the given key.
pub open spec fn key_index(entries: Seq<(String, JsonValue)>, key: Seq<char>, i: int) -> Option<int>
    decreases entries.len() - i,
{
    if i < 0 || i >= entries.len() {
        None
    } else if entries[i].0@ == key {
        Some(i)
    } else {
        key_index(entries, key, i + 1)
    }
}

/// The member of an object with the given key; none when the value is not an
/// object or has no such member.
pub open spec fn member(v: JsonValue, key: Seq<char>) -> Option<JsonValue> {
    match v {
        JsonValue::Object(entries) => match key_index(entries@, key, 0) {
            Some(k) => Some(entries@[k].1),
            None => None,
        },
        _ => None,
    }
}

/// `v[key]` where `v` may be missing: missing stays missing.
pub open spec fn at(o: Option<JsonValue>, key: Seq<char>) -> Option<JsonValue> {
    match o {
        Some(v) => member(v, key),
        None => None,
    }
}

/// The text of a string value.
pub open spec fn as_str(o: Option<JsonValue>) -> Option<Seq<char>> {
    match o {
        Some(JsonValue::String(s)) => Some(s@),
        _ => None,
    }
}

/// The value of a boolean.
pub open spec fn as_bool(o: Option<JsonValue>) -> Option<bool> {
    match o {
        Some(JsonValue::Bool(b)) => Some(b),
        _ => None,
    }
}

/// A number that is a non-negative integer.
pub open spec fn as_u64(o: Option<JsonValue>) -> Option<u64> {
    match o {
        Some(JsonValue::Number(JsonNumber::PosInt(n))) => Some(n),
        _ => None,
    }
}

/// A number that is an integer within `i64`.
pub open spec fn as_i64(o: Option<JsonValue>) -> Option<i64> {
    match o {
        Some(JsonValue::Number(JsonNumber::PosInt(n))) => if n <= i64::MAX {
            Some(n as i64)
        } else {
            None
        },
        Some(JsonValue::Number(JsonNumber::NegInt(n))) => Some(n),
        _ => None,
    }
}

/// The elements of an array.
pub open spec fn as_array(o: Option<JsonValue>) -> Option<Seq<JsonValue>> {
    match o {
        Some(JsonValue::Array(a)) => Some(a@),
        _ => None,
    }
}

/// The text, or `default` when there is none.
pub open spec fn text_or(o: Option<Seq<char>>, default: Seq<char>) -> Seq<char> {
    match o {
        Some(t) => t,
        None => default,
    }
}

/// The elements of an array; none when the value is not an array.
pub open spec fn elements(o: Option<JsonValue>) -> Seq<JsonValue> {
    match as_array(o) {
        Some(a) => a,
        None => Seq::empty(),
    }
}

/// A borrowed value read as a value.
pub open spec fn value_of(o: Option<&JsonValue>) -> Option<JsonValue> {
    match o {
        Some(v) => Some(*v),
        None => None,
    }
}

/// The member of `v` with the given key (see [`member`]).
pub fn member_of<'a>(v: &'a JsonValue, key: &str) -> (r: Option<&'a JsonValue>)
    ensures
        value_of(r) == member(*v, key@),
{
    match v {
        JsonValue::Object(entries) => {
            let mut k: usize = 0;
            while k < entries.len()
                invariant
                    k <= entries@.len(),
                    key_index(entries@, key@, 0) == key_index(entries@, key@, k as int),
                    member(*v, key@) == (match key_index(entries@, key@, 0) {
                        Some(j) => Some(entries@[j].1),
                        None => None,
                    }),
                decreases entries.len() - k,
            {
                if str_equal(entries[k].0.as_str(), key) {
                    return Some(&entries[k].1);
                }
                k += 1;
            }
            None
        },
        _ => None,
    }
}

/// `o[key]` (see [`at`]).
pub fn at_key<'a>(o: Option<&'a JsonValue>, key: &str) -> (r: Option<&'a JsonValue>)
    ensures
        value_of(r) == at(value_of(o), key@),
{
    match o {
        Some(v) => member_of(v, key),
        None => None,
    }
}

/// The text of a string value, as an owned string.
pub fn str_value(o: Option<&JsonValue>) -> (r: Option<String>)
    ensures
        opt_view(r) == as_str(value_of(o)),
{
    match o {
        Some(JsonValue::String(s)) => Some(owned(s.as_str())),
        _ => None,
    }
}

/// Whether a value is the given string.
pub fn str_value_is(o: Option<&JsonValue>, text: &str) -> (r: bool)
    ensures
        r == (as_str(value_of(o)) == Some(text@)),
{
    match o {
        Some(JsonValue::String(s)) => str_equal(s.as_str(), text),
        _ => false,
    }
}

/// The value of a boolean.
pub fn bool_value(o: Option<&JsonValue>) -> (r: Option<bool>)
    ensures
        r == as_bool(value_of(o)),
{
    match o {
        Some(JsonValue::Bool(b)) => Some(*b),
        _ => None,
    }
}

/// A non-negative integer.
pub fn u64_value(o: Option<&JsonValue>) -> (r: Option<u64>)
    ensures
        r == as_u64(value_of(o)),
{
    match o {
        Some(JsonValue::Number(JsonNumber::PosInt(n))) => Some(*n),
        _ => None,
    }
}

/// An integer within `i64`.
pub fn i64_value(o: Option<&JsonValue>) -> (r: Option<i64>)
    ensures
        r == as_i64(value_of(o)),
{
    match o {
        Some(JsonValue::Number(JsonNumber::PosInt(n))) => {
            if *n <= 9_223_372_036_854_775_807u64 {
                Some(*n as i64)
            } else {
                None
            }
        },
        Some(JsonValue::Number(JsonNumber::NegInt(n))) => Some(*n),
        _ => None,
    }
}

/// The elements of an array.
pub fn array_value<'a>(o: Option<&'a JsonValue>) -> (r: Option<&'a Vec<JsonValue>>)
    ensures
        match r {
            Some(a) => as_array(value_of(o)) == Some(a@),
            None => as_array(value_of(o)) is None,
        },
{
    match o {
        Some(JsonValue::Array(a)) => Some(a),
        _ => None,
    }
}

} // verus!
