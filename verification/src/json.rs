//! A plain JSON document model and the lookups the scanner performs on it.
//!
//! Parsing itself is delegated to `serde_json`; its result is converted one
//! for one into [`JsonValue`]. Numbers keep only their `i64` reading, which is
//! the only numeric information the projections consult.
use vstd::prelude::*;

verus! {

#[derive(Debug, PartialEq)]
pub enum JsonValue {
    Null,
    Bool(bool),
    /// `Some(n)` when the number is an integer that fits `i64`.
    Number(Option<i64>),
    Str(String),
    Array(Vec<JsonValue>),
    Object(Vec<(String, JsonValue)>),
}

#[verifier::external_type_specification]
#[verifier::external_body]
pub struct ExSerdeJsonValue(serde_json::Value);

/// What `serde_json::from_str::<serde_json::Value>` yields for a text: the
/// parsed document, or the column reported by its error.
pub uninterp spec fn serde_json_from_str(text: Seq<char>) -> Result<JsonValue, usize>;

/// What `serde_json::from_slice::<serde_json::Value>` yields for a byte
/// sequence: the parsed document, or nothing when it is rejected.
pub uninterp spec fn serde_json_from_slice(bytes: Seq<u8>) -> Option<JsonValue>;

/// Converts a `serde_json::Value` variant by variant into the library model.
#[verifier::external_body]
fn json_from_serde(value: serde_json::Value) -> JsonValue {
    match value {
        serde_json::Value::Null => JsonValue::Null,
        serde_json::Value::Bool(b) => JsonValue::Bool(b),
        serde_json::Value::Number(n) => JsonValue::Number(n.as_i64()),
        serde_json::Value::String(s) => JsonValue::Str(s),
        serde_json::Value::Array(items) => JsonValue::Array(
            items.into_iter().map(json_from_serde).collect(),
        ),
        serde_json::Value::Object(map) => JsonValue::Object(
            map.into_iter().map(|(k, v)| (k, json_from_serde(v))).collect(),
        ),
    }
}

/// Calls `serde_json::from_str` for a `serde_json::Value`. The contract only
/// names the outcome: nothing is claimed about JSON syntax itself.
#[verifier::external_body]
pub fn parse_json_text(text: &str) -> (r: Result<JsonValue, usize>)
    ensures
        r == serde_json_from_str(text@),
{
    match serde_json::from_str::<serde_json::Value>(text) {
        Ok(value) => Ok(json_from_serde(value)),
        Err(error) => Err(error.column()),
    }
}

/// Calls `serde_json::from_slice` for a `serde_json::Value`; the outcome is
/// only named.
#[verifier::external_body]
pub fn parse_json_bytes(bytes: &[u8]) -> (r: Option<JsonValue>)
    ensures
        r == serde_json_from_slice(bytes@),
{
    match serde_json::from_slice::<serde_json::Value>(bytes) {
        Ok(value) => Some(json_from_serde(value)),
        Err(_) => None,
    }
}

/// The value of the first member named `key`.
pub open spec fn fields_get(fields: Seq<(String, JsonValue)>, key: Seq<char>) -> Option<JsonValue>
    decreases fields.len(),
{
    if fields.len() == 0 {
        None
    } else if fields[0].0@ == key {
        Some(fields[0].1)
    } else {
        fields_get(fields.drop_first(), key)
    }
}

/// `value.get(key)`: members exist only on objects.
pub open spec fn jget(v: JsonValue, key: Seq<char>) -> Option<JsonValue> {
    match v {
        JsonValue::Object(fields) => fields_get(fields@, key),
        _ => None,
    }
}

pub open spec fn ojget(v: Option<JsonValue>, key: Seq<char>) -> Option<JsonValue> {
    match v {
        Some(v) => jget(v, key),
        None => None,
    }
}

pub open spec fn jstr(v: Option<JsonValue>) -> Option<Seq<char>> {
    match v {
        Some(JsonValue::Str(s)) => Some(s@),
        _ => None,
    }
}

pub open spec fn jbool(v: Option<JsonValue>) -> Option<bool> {
    match v {
        Some(JsonValue::Bool(b)) => Some(b),
        _ => None,
    }
}

/// `a.or(b)` on lookups.
pub open spec fn first_some(a: Option<JsonValue>, b: Option<JsonValue>) -> Option<JsonValue> {
    if a is Some {
        a
    } else {
        b
    }
}

pub open spec fn deref(r: Option<&JsonValue>) -> Option<JsonValue> {
    match r {
        Some(x) => Some(*x),
        None => None,
    }
}

pub open spec fn str_view(r: Option<&str>) -> Option<Seq<char>> {
    match r {
        Some(x) => Some(x@),
        None => None,
    }
}

pub open spec fn ref_matches(r: Option<&JsonValue>, s: Option<JsonValue>) -> bool {
    match r {
        Some(x) => s == Some(*x),
        None => s is None,
    }
}

pub fn fields_lookup<'a>(fields: &'a Vec<(String, JsonValue)>, key: &str) -> (r: Option<
    &'a JsonValue,
>)
    ensures
        ref_matches(r, fields_get(fields@, key@)),
{
    let mut i: usize = 0;
    assert(fields@.skip(0) =~= fields@);
    while i < fields.len()
        invariant
            i <= fields@.len(),
            fields_get(fields@, key@) == fields_get(fields@.skip(i as int), key@),
        decreases fields.len() - i,
    {
        assert(fields@.skip(i as int).drop_first() =~= fields@.skip(i + 1));
        if crate::text::str_eq(fields[i].0.as_str(), key) {
            return Some(&fields[i].1);
        }
        i = i + 1;
    }
    None
}

pub fn get<'a>(v: &'a JsonValue, key: &str) -> (r: Option<&'a JsonValue>)
    ensures
        ref_matches(r, jget(*v, key@)),
{
    match v {
        JsonValue::Object(fields) => fields_lookup(fields, key),
        _ => None,
    }
}

pub fn oget<'a>(v: Option<&'a JsonValue>, key: &str) -> (r: Option<&'a JsonValue>)
    ensures
        ref_matches(r, ojget(deref(v), key@)),
{
    match v {
        Some(v) => get(v, key),
        None => None,
    }
}

pub fn as_str<'a>(v: Option<&'a JsonValue>) -> (r: Option<&'a str>)
    ensures
        str_view(r) == jstr(deref(v)),
{
    match v {
        Some(JsonValue::Str(s)) => Some(s.as_str()),
        _ => None,
    }
}

pub fn as_bool(v: Option<&JsonValue>) -> (r: Option<bool>)
    ensures
        r == jbool(deref(v)),
{
    match v {
        Some(JsonValue::Bool(b)) => Some(*b),
        _ => None,
    }
}

pub fn or_else<'a>(a: Option<&'a JsonValue>, b: Option<&'a JsonValue>) -> (r: Option<
    &'a JsonValue,
>)
    ensures
        deref(r) == first_some(
            deref(a),
            deref(b),
        ),
{
    match a {
        Some(x) => Some(x),
        None => b,
    }
}

pub open spec fn jarray(v: Option<JsonValue>) -> Option<Seq<JsonValue>> {
    match v {
        Some(JsonValue::Array(items)) => Some(items@),
        _ => None,
    }
}

pub open spec fn jobject(v: Option<JsonValue>) -> Option<Seq<(String, JsonValue)>> {
    match v {
        Some(JsonValue::Object(fields)) => Some(fields@),
        _ => None,
    }
}

/// `value.as_array()`.
pub fn as_array<'a>(v: Option<&'a JsonValue>) -> (r: Option<&'a Vec<JsonValue>>)
    ensures
        match r {
            Some(items) => jarray(deref(v)) == Some(items@),
            None => jarray(deref(v)) is None,
        },
{
    match v {
        Some(JsonValue::Array(items)) => Some(items),
        _ => None,
    }
}

/// `value.as_object()`, as its member list.
pub fn as_object<'a>(v: Option<&'a JsonValue>) -> (r: Option<&'a Vec<(String, JsonValue)>>)
    ensures
        match r {
            Some(fields) => jobject(deref(v)) == Some(fields@),
            None => jobject(deref(v)) is None,
        },
{
    match v {
        Some(JsonValue::Object(fields)) => Some(fields),
        _ => None,
    }
}

} // verus!
