//! The trusted boundary to serde_json, which parses the wire text of
//! inbound records.
//!
//! A parsed record is abstracted as a map from field names to either the
//! field's string value or nothing, for a field that is not a string. What
//! the names below denote is fixed by serde_json alone; the verified decode
//! logic works over them.

use vstd::prelude::*;

verus! {

#[verifier::external_type_specification]
#[verifier::external_body]
pub struct ExValue(serde_json::Value);

#[verifier::external_type_specification]
#[verifier::external_body]
#[verifier::reject_recursive_types(K)]
#[verifier::reject_recursive_types(V)]
pub struct ExJsonMap<K, V>(serde_json::Map<K, V>);

#[verifier::external_type_specification]
#[verifier::external_body]
pub struct ExJsonError(serde_json::Error);

/// What a parsed object holds: one entry per key, carrying the value's text
/// when that value is a JSON string and nothing otherwise.
pub uninterp spec fn obj_fields(m: serde_json::Map<String, serde_json::Value>) -> Map<
    Seq<char>,
    Option<Seq<char>>,
>;

/// The text of a JSON value when it is a string, nothing otherwise.
pub uninterp spec fn str_of(v: serde_json::Value) -> Option<Seq<char>>;

/// What `serde_json::from_str` makes of a text when asked for an object:
/// nothing when the text is not a JSON object, else the abstraction of the
/// parsed object's fields.
pub uninterp spec fn json_obj_of(s: Seq<char>) -> Option<Map<Seq<char>, Option<Seq<char>>>>;

/// Relies on `serde_json::from_str::<Map<String, Value>>`: it succeeds
/// exactly on texts that are JSON objects, it is a function of the text
/// alone, and the map it returns holds the object's fields.
#[verifier::external_body]
pub(crate) fn parse_object(s: &str) -> (r: Result<
    serde_json::Map<String, serde_json::Value>,
    serde_json::Error,
>)
    ensures
        match r {
            Ok(m) => json_obj_of(s@) == Some(obj_fields(m)),
            Err(_) => json_obj_of(s@) is None,
        },
{
    serde_json::from_str(s)
}

/// Relies on `serde_json::Map::get`: it returns the value stored under the
/// key exactly when the map holds the key.
#[verifier::external_body]
pub(crate) fn obj_get<'a>(m: &'a serde_json::Map<String, serde_json::Value>, k: &str) -> (r: Option<
    &'a serde_json::Value,
>)
    ensures
        match r {
            Some(v) => obj_fields(*m).contains_key(k@) && str_of(*v) == obj_fields(*m)[k@],
            None => !obj_fields(*m).contains_key(k@),
        },
{
    m.get(k)
}

/// Relies on `serde_json::Value::as_str`: it returns the text exactly of a
/// string value.
#[verifier::external_body]
pub(crate) fn value_as_str<'a>(v: &'a serde_json::Value) -> (r: Option<&'a str>)
    ensures
        match r {
            Some(s) => str_of(*v) == Some(s@),
            None => str_of(*v) is None,
        },
{
    v.as_str()
}

} // verus!
