//! A JSON document as plain values, and the lookups the scanners make in it.
//!
//! Numbers are kept as their text; objects keep their members in the order
//! the parser hands them over (serde_json, with its default features, gives
//! them sorted by key).
use vstd::prelude::*;

use crate::text::{chars_of, parse_unsigned, str_is};

verus! {

/// A JSON value.
#[derive(Debug)]
pub enum JsonValue {
    Null,
    Bool(bool),
    /// A number, as its text.
    Number(String),
    Str(String),
    Array(Vec<JsonValue>),
    /// The members of an object, in the order the parser gave them.
    Object(Vec<(String, JsonValue)>),
}

/// Whether `i` is the position of the first member of `members` named `key`.
pub open spec fn is_first_member(members: Seq<(String, JsonValue)>, key: Seq<char>, i: int) -> bool {
    &&& 0 <= i < members.len()
    &&& members[i].0@ == key
    &&& forall|k: int| 0 <= k < i ==> (#[trigger] members[k]).0@ != key
}

/// The position of the first member named `key` (meaningful when there is one).
pub open spec fn first_member(members: Seq<(String, JsonValue)>, key: Seq<char>) -> int {
    choose|i: int| is_first_member(members, key, i)
}

/// Whether some member is named `key`.
pub open spec fn has_member(members: Seq<(String, JsonValue)>, key: Seq<char>) -> bool {
    exists|i: int| is_first_member(members, key, i)
}

/// The member of an object named `key` (`Value::get` with a string); `None`
/// for anything but an object holding that key.
pub open spec fn member(v: JsonValue, key: Seq<char>) -> Option<JsonValue> {
    match v {
        JsonValue::Object(members) => if has_member(members@, key) {
            Some(members@[first_member(members@, key)].1)
        } else {
            None
        },
        _ => None,
    }
}

/// The element of an array at `i` (`Value::get` with an index); `None` for
/// anything but an array that long.
pub open spec fn element(v: JsonValue, i: nat) -> Option<JsonValue> {
    match v {
        JsonValue::Array(items) => if i < items@.len() {
            Some(items@[i as int])
        } else {
            None
        },
        _ => None,
    }
}

/// The text of a string value (`Value::as_str`).
pub open spec fn string_value(v: JsonValue) -> Option<Seq<char>> {
    match v {
        JsonValue::Str(s) => Some(s@),
        _ => None,
    }
}

/// The member of an object named `key`.
pub fn get_member<'a>(v: &'a JsonValue, key: &str) -> (r: Option<&'a JsonValue>)
    ensures
        match r {
            Some(x) => member(*v, key@) == Some(*x),
            None => member(*v, key@) is None,
        },
{
    match v {
        JsonValue::Object(members) => {
            let mut i: usize = 0;
            while i < members.len()
                invariant
                    *v == JsonValue::Object(*members),
                    i <= members.len(),
                    forall|k: int| 0 <= k < i ==> (#[trigger] members@[k]).0@ != key@,
                decreases members.len() - i,
            {
                if str_is(members[i].0.as_str(), key) {
                    proof {
                        assert(is_first_member(members@, key@, i as int));
                        let j = first_member(members@, key@);
                        if j < i {
                            assert(members@[j].0@ != key@);
                        }
                        if i < j {
                            assert(members@[i as int].0@ != key@);
                        }
                        assert(j == i);
                        assert(member(*v, key@) == Some(members@[i as int].1));
                    }
                    return Some(&members[i].1);
                }
                i = i + 1;
            }
            proof {
                assert forall|j: int| !is_first_member(members@, key@, j) by {
                    if 0 <= j < members@.len() {
                        assert(members@[j].0@ != key@);
                    }
                }
            }
            None
        },
        _ => None,
    }
}

/// The element of an array at `i`.
pub fn get_element<'a>(v: &'a JsonValue, i: usize) -> (r: Option<&'a JsonValue>)
    ensures
        match r {
            Some(x) => element(*v, i as nat) == Some(*x),
            None => element(*v, i as nat) is None,
        },
{
    match v {
        JsonValue::Array(items) => {
            if i < items.len() {
                Some(&items[i])
            } else {
                None
            }
        },
        _ => None,
    }
}

/// The text of a string value.
pub fn as_str(v: &JsonValue) -> (r: Option<&str>)
    ensures
        match r {
            Some(s) => string_value(*v) == Some(s@),
            None => string_value(*v) is None,
        },
{
    match v {
        JsonValue::Str(s) => Some(s.as_str()),
        _ => None,
    }
}

/// One step of a JSON pointer: the member named `key`, or else, when `key`
/// reads as an index, the element at that index.
pub open spec fn pointer_step(v: JsonValue, key: Seq<char>) -> Option<JsonValue> {
    match member(v, key) {
        Some(x) => Some(x),
        None => match parse_unsigned(key, usize::MAX as nat) {
            Some(i) => element(v, i),
            None => None,
        },
    }
}

/// The value reached by following `keys` from `v`.
pub open spec fn follow_pointer(v: JsonValue, keys: Seq<Seq<char>>) -> Option<JsonValue>
    decreases keys.len(),
{
    if keys.len() == 0 {
        Some(v)
    } else {
        match pointer_step(v, keys[0]) {
            Some(x) => follow_pointer(x, keys.drop_first()),
            None => None,
        }
    }
}

/// `str::parse::<usize>` on a string.
pub fn parse_usize(s: &str) -> (r: Option<usize>)
    ensures
        r == (match parse_unsigned(s@, usize::MAX as nat) {
            Some(n) => Some(n as usize),
            None => None,
        }),
{
    match crate::text::parse_u64_vec(&chars_of(s)) {
        Some(n) => {
            if n as u128 <= usize::MAX as u128 {
                Some(n as usize)
            } else {
                None
            }
        },
        None => None,
    }
}

/// One step of a JSON pointer.
pub fn step<'a>(v: &'a JsonValue, key: &str) -> (r: Option<&'a JsonValue>)
    ensures
        match r {
            Some(x) => pointer_step(*v, key@) == Some(*x),
            None => pointer_step(*v, key@) is None,
        },
{
    match get_member(v, key) {
        Some(x) => Some(x),
        None => match parse_usize(key) {
            Some(i) => get_element(v, i),
            None => None,
        },
    }
}

/// serde_json's document type, carried only inside the parse below.
#[verifier::external_type_specification]
#[verifier::external_body]
pub struct ExSerdeJsonValue(serde_json::Value);

/// The document that serde_json reads from `text`, in this library's form;
/// `None` when `text` is not JSON.
pub uninterp spec fn json_document(text: Seq<char>) -> Option<JsonValue>;

/// Parse `text` as JSON with `serde_json::from_str::<serde_json::Value>`:
/// the result is a function of the text alone, named `json_document`. Its
/// members come in the order serde_json's map gives them and numbers keep
/// the text serde_json prints for them; nothing more is stated.
#[verifier::external_body]
pub(crate) fn parse_json_document(text: &str) -> (r: Option<JsonValue>)
    ensures
        r == json_document(text@),
{
    match serde_json::from_str::<serde_json::Value>(text) {
        Ok(v) => Some(from_serde(v)),
        Err(_) => None,
    }
}

/// serde_json's value as this library's, variant by variant (the conversion
/// that `parse_json_document` applies; it computes nothing else).
#[verifier::external_body]
fn from_serde(v: serde_json::Value) -> JsonValue {
    match v {
        serde_json::Value::Null => JsonValue::Null,
        serde_json::Value::Bool(b) => JsonValue::Bool(b),
        serde_json::Value::Number(n) => JsonValue::Number(n.to_string()),
        serde_json::Value::String(s) => JsonValue::Str(s),
        serde_json::Value::Array(items) => JsonValue::Array(items.into_iter().map(from_serde).collect()),
        serde_json::Value::Object(members) => {
            JsonValue::Object(members.into_iter().map(|(k, x)| (k, from_serde(x))).collect())
        },
    }
}

} // verus!
