//! Reading JSON that others wrote.

use crate::text;
use serde_json::Value;
use vstd::prelude::*;

verus! {

/// `serde_json::Value`, any JSON value.
#[verifier::external_type_specification]
#[verifier::external_body]
pub struct ExValue(Value);

/// What a JSON value is.
pub enum Json {
    Null,
    Bool(bool),
    /// A number, and which one it is where it is written as a whole one, without
    /// a sign, and fits a `u64`. Of any other, `1.0` too, that is not told.
    Number(Option<u64>),
    Text(Seq<char>),
    Array(Seq<Json>),
    Object(Map<Seq<char>, Json>),
}

/// What a `serde_json::Value` holds.
pub uninterp spec fn held(v: Value) -> Json;

pub open spec fn all_held(v: Seq<Value>) -> Seq<Json> {
    v.map_values(|x: Value| held(x))
}

/// What `serde_json::from_slice` reads from bytes, if they are JSON.
pub uninterp spec fn value_in(bytes: Seq<u8>) -> Option<Json>;

/// Calls `serde_json::from_slice` for a `Value`; an error is dropped. What is
/// read depends on the bytes alone.
#[verifier::external_body]
pub(crate) fn parse(bytes: &[u8]) -> (r: Option<Value>)
    ensures
        match r {
            Some(v) => value_in(bytes@) == Some(held(v)),
            None => value_in(bytes@) is None,
        },
{
    serde_json::from_slice::<Value>(bytes).ok()
}

/// What a value holds under a key, where it is an object that has the key.
pub open spec fn member_of(v: Json, key: Seq<char>) -> Option<Json> {
    match v {
        Json::Object(m) => if m.contains_key(key) {
            Some(m[key])
        } else {
            None
        },
        _ => None,
    }
}

/// Calls `serde_json::Value::get` with a key: what an object holds under it.
#[verifier::external_body]
pub(crate) fn member<'a>(v: &'a Value, key: &str) -> (r: Option<&'a Value>)
    ensures
        match r {
            Some(m) => member_of(held(*v), key@) == Some(held(*m)),
            None => member_of(held(*v), key@) is None,
        },
{
    v.get(key)
}

/// The text, where a value is one.
pub open spec fn text_in(v: Json) -> Option<Seq<char>> {
    match v {
        Json::Text(s) => Some(s),
        _ => None,
    }
}

/// Calls `serde_json::Value::as_str`: the text, where the value is one.
#[verifier::external_body]
pub(crate) fn as_text(v: &Value) -> (r: Option<String>)
    ensures
        text::opt(r) == text_in(held(*v)),
{
    v.as_str().map(str::to_string)
}

/// The elements, where a value is an array.
pub open spec fn items_in(v: Json) -> Option<Seq<Json>> {
    match v {
        Json::Array(items) => Some(items),
        _ => None,
    }
}

/// Calls `serde_json::Value::as_array`: the elements, where the value is an
/// array.
#[verifier::external_body]
pub(crate) fn as_items<'a>(v: &'a Value) -> (r: Option<&'a Vec<Value>>)
    ensures
        match r {
            Some(items) => items_in(held(*v)) == Some(all_held(items@)),
            None => items_in(held(*v)) is None,
        },
{
    v.as_array()
}

/// The number, where a value is one that is told: see [`Json::Number`].
pub open spec fn count_in(v: Json) -> Option<u64> {
    match v {
        Json::Number(n) => n,
        _ => None,
    }
}

/// Calls `serde_json::Value::as_u64`: the number, where the value is one that
/// was written as a whole one, without a sign, and fits.
#[verifier::external_body]
pub(crate) fn as_count(v: &Value) -> (r: Option<u64>)
    ensures
        r == count_in(held(*v)),
{
    v.as_u64()
}

/// The text under a key.
pub open spec fn text_under(v: Json, key: Seq<char>) -> Option<Seq<char>> {
    match member_of(v, key) {
        Some(m) => text_in(m),
        None => None,
    }
}

/// The number under a key.
pub open spec fn count_under(v: Json, key: Seq<char>) -> Option<u64> {
    match member_of(v, key) {
        Some(m) => count_in(m),
        None => None,
    }
}

/// The text under a key.
pub fn text_at(v: &Value, key: &str) -> (r: Option<String>)
    ensures
        text::opt(r) == text_under(held(*v), key@),
{
    match member(v, key) {
        Some(m) => as_text(m),
        None => None,
    }
}

/// The number under a key.
pub fn count_at(v: &Value, key: &str) -> (r: Option<u64>)
    ensures
        r == count_under(held(*v), key@),
{
    match member(v, key) {
        Some(m) => as_count(m),
        None => None,
    }
}

/// Whether bytes are JSON.
pub fn is_json(bytes: &[u8]) -> (r: bool)
    ensures
        r == (value_in(bytes@) is Some),
{
    parse(bytes).is_some()
}

/// What stands under a key is told by what kind of value it is, and of what is no
/// object nothing is.
pub proof fn a_key_leads_to_its_value(m: Map<Seq<char>, Json>, key: Seq<char>, v: Json)
    ensures
        text_under(Json::Object(m), key) is Some <==> m.contains_key(key) && m[key] is Text,
        m.contains_key(key) ==> (m[key] matches Json::Text(t) ==> text_under(Json::Object(m), key)
            == Some(t)),
        m.contains_key(key) ==> (m[key] matches Json::Number(n) ==> count_under(
            Json::Object(m),
            key,
        ) == n),
        !m.contains_key(key) || !(m[key] is Number) ==> count_under(Json::Object(m), key) is None,
        !(v is Object) ==> text_under(v, key) is None && count_under(v, key) is None,
{
}

} // verus!
