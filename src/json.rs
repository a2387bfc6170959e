//! JSON documents as plain values, read with serde_json.
use vstd::prelude::*;

use crate::decimal::{decimal_of, parse_decimal, Decimal};
use crate::text::same_text;

verus! {

/// A JSON value. A number keeps the text that serde_json writes for it.
#[derive(Debug)]
pub enum JsonValue {
    Null,
    Bool(bool),
    Number(String),
    Str(String),
    Array(Vec<JsonValue>),
    Object(Vec<(String, JsonValue)>),
}

/// The value of the first entry under `key`.
pub open spec fn entry_in(es: Seq<(String, JsonValue)>, key: Seq<char>) -> Option<JsonValue>
    decreases es.len(),
{
    if es.len() == 0 {
        None
    } else if es[0].0@ == key {
        Some(es[0].1)
    } else {
        entry_in(es.drop_first(), key)
    }
}

/// The member `key` of an object; nothing for any other value.
pub open spec fn member(v: JsonValue, key: Seq<char>) -> Option<JsonValue> {
    match v {
        JsonValue::Object(es) => entry_in(es@, key),
        _ => None,
    }
}

/// The element `i` of an array; nothing for any other value.
pub open spec fn element(v: JsonValue, i: int) -> Option<JsonValue> {
    match v {
        JsonValue::Array(a) => if 0 <= i < a@.len() {
            Some(a@[i])
        } else {
            None
        },
        _ => None,
    }
}

/// The characters of a string value.
pub open spec fn text_of(v: JsonValue) -> Option<Seq<char>> {
    match v {
        JsonValue::Str(s) => Some(s@),
        _ => None,
    }
}

/// The decimal that a number value denotes.
pub open spec fn number_of(v: JsonValue) -> Option<Decimal> {
    match v {
        JsonValue::Number(t) => decimal_of(t@),
        _ => None,
    }
}

/// The value that a found reference points to.
pub open spec fn found(r: Option<&JsonValue>) -> Option<JsonValue> {
    match r {
        Some(w) => Some(*w),
        None => None,
    }
}

/// The member `key` of a value that may be missing.
pub open spec fn member_of(v: Option<JsonValue>, key: Seq<char>) -> Option<JsonValue> {
    match v {
        Some(w) => member(w, key),
        None => None,
    }
}

/// Finds the member `key` of an object value.
pub fn get_member<'a>(v: &'a JsonValue, key: &str) -> (r: Option<&'a JsonValue>)
    ensures
        found(r) == member(*v, key@),
{
    match v {
        JsonValue::Object(es) => {
            let mut i: usize = 0;
            assert(es@.skip(0) =~= es@);
            while i < es.len()
                invariant
                    i <= es@.len(),
                    member(*v, key@) == entry_in(es@, key@),
                    entry_in(es@, key@) == entry_in(es@.skip(i as int), key@),
                decreases es.len() - i,
            {
                assert(es@.skip(i as int).drop_first() =~= es@.skip(i + 1));
                assert(es@.skip(i as int)[0] == es@[i as int]);
                if same_text(es[i].0.as_str(), key) {
                    assert(es@.skip(i as int).len() > 0);
                    assert(entry_in(es@.skip(i as int), key@) == Some(es@[i as int].1));
                    let w = &es[i].1;
                    return Some(w);
                }
                i = i + 1;
            }
            None
        },
        _ => None,
    }
}

/// Finds the member `key` of a value that may be missing.
pub fn get_member_of<'a>(v: Option<&'a JsonValue>, key: &str) -> (r: Option<&'a JsonValue>)
    ensures
        found(r) == member_of(found(v), key@),
{
    match v {
        Some(w) => get_member(w, key),
        None => None,
    }
}

/// Finds the element `i` of an array value.
pub fn get_element(v: &JsonValue, i: usize) -> (r: Option<&JsonValue>)
    ensures
        found(r) == element(*v, i as int),
{
    match v {
        JsonValue::Array(a) => if i < a.len() {
            Some(&a[i])
        } else {
            None
        },
        _ => None,
    }
}

/// The text of a string value.
pub fn get_text(v: &JsonValue) -> (r: Option<&str>)
    ensures
        match r {
            Some(s) => text_of(*v) == Some(s@),
            None => text_of(*v) is None,
        },
{
    match v {
        JsonValue::Str(s) => Some(s.as_str()),
        _ => None,
    }
}

/// The decimal of a number value, if its text is one.
pub fn get_number(v: &JsonValue) -> (r: Option<Decimal>)
    ensures
        r == number_of(*v),
{
    match v {
        JsonValue::Number(t) => parse_decimal(t.as_str()),
        _ => None,
    }
}

#[verifier::external_type_specification]
#[verifier::external_body]
pub struct ExValue(serde_json::Value);

/// The document that serde_json reads from a text, as a `JsonValue`; none
/// where the text is not one JSON document.
pub uninterp spec fn json_of(text: Seq<char>) -> Option<JsonValue>;

/// Relies on serde_json::from_str: the document it reads depends on the
/// text alone.
#[verifier::external_body]
fn read_document(text: &str) -> (r: Option<JsonValue>)
    ensures
        r == json_of(text@),
{
    match serde_json::from_str::<serde_json::Value>(text) {
        Ok(v) => Some(to_json_value(v)),
        Err(_) => None,
    }
}

/// Relies on serde_json::Value's variants, on `Number`'s `Display` for the
/// text of a number and on `Map::into_iter` for the entries of an object:
/// converts one for one.
#[verifier::external_body]
fn to_json_value(v: serde_json::Value) -> JsonValue {
    match v {
        serde_json::Value::Null => JsonValue::Null,
        serde_json::Value::Bool(b) => JsonValue::Bool(b),
        serde_json::Value::Number(n) => JsonValue::Number(n.to_string()),
        serde_json::Value::String(s) => JsonValue::Str(s),
        serde_json::Value::Array(a) => JsonValue::Array(a.into_iter().map(to_json_value).collect()),
        serde_json::Value::Object(m) => {
            JsonValue::Object(m.into_iter().map(|(k, x)| (k, to_json_value(x))).collect())
        },
    }
}

/// Reads a JSON document from its text; see `json_of`.
pub fn read_json(text: &str) -> (r: Option<JsonValue>)
    ensures
        r == json_of(text@),
{
    read_document(text)
}

} // verus!
