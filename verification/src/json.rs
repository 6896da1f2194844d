//! JSON values as `serde_json` reads them, and what the conversions read of
//! them.
//!
//! A `serde_json::Value` is opaque to Verus; `json_view` names the JSON value
//! it holds, as a `Json`.  Scalars (null, booleans, numbers) are kept only as
//! `Json::Scalar`, since no conversion reads them.

use vstd::prelude::*;
use serde_json::Value;

verus! {

#[verifier::external_type_specification]
#[verifier::external_body]
pub struct ExJsonValue(Value);

#[verifier::external_type_specification]
#[verifier::external_body]
#[verifier::reject_recursive_types(K)]
#[verifier::reject_recursive_types(V)]
pub struct ExJsonMap<K, V>(serde_json::Map<K, V>);

#[verifier::external_type_specification]
#[verifier::external_body]
pub struct ExJsonError(serde_json::Error);

/// A JSON value.
pub enum Json {
    /// A string.
    Str(Seq<char>),
    /// An array of values.
    Array(Seq<Json>),
    /// An object: its members in the order the map lists them.
    Object(Seq<(Seq<char>, Json)>),
    /// `null`, a boolean or a number.
    Scalar,
}

/// What `serde_json` reads from `input` into a `Value`: the JSON value, or
/// the error it reports for these bytes.
pub uninterp spec fn json_read(input: Seq<u8>) -> Result<Json, serde_json::Error>;

/// The JSON value a `Value` holds.
pub uninterp spec fn json_view(v: Value) -> Json;

/// The members of a JSON object map, in the order its iterator yields them
/// (ascending key order, `serde_json` being built without `preserve_order`).
pub uninterp spec fn entries_view(m: serde_json::Map<String, Value>) -> Seq<(Seq<char>, Json)>;

/// `serde_json::from_reader` over a byte slice, into a `Value`: the value
/// or the error that `json_read` names for these bytes.
#[verifier::external_body]
pub(crate) fn parse_json(input: &[u8]) -> (res: Result<Value, serde_json::Error>)
    ensures
        res matches Ok(v) ==> json_read(input@) matches Ok(j) && j == json_view(v),
        res matches Err(e) ==> json_read(input@) matches Err(err) && err == e,
{
    serde_json::from_reader(input)
}

/// A borrowed look at the variant of a `Value`.
pub enum JsonRef<'a> {
    Str(&'a String),
    Array(&'a Vec<Value>),
    Object(&'a serde_json::Map<String, Value>),
    Scalar,
}

/// Tells the variants of `Value` apart, lending out what the variant holds:
/// a string, the vector of an array, the map of an object.  The view of the
/// value is made of the views of what it holds.
#[verifier::external_body]
pub(crate) fn classify(v: &Value) -> (r: JsonRef<'_>)
    ensures
        match r {
            JsonRef::Str(s) => json_view(*v) == Json::Str(s@),
            JsonRef::Array(a) => json_view(*v) == Json::Array(
                a@.map_values(|x: Value| json_view(x)),
            ),
            JsonRef::Object(m) => json_view(*v) == Json::Object(entries_view(*m)),
            JsonRef::Scalar => json_view(*v) is Scalar,
        },
{
    match v {
        Value::String(s) => JsonRef::Str(s),
        Value::Array(a) => JsonRef::Array(a),
        Value::Object(m) => JsonRef::Object(m),
        _ => JsonRef::Scalar,
    }
}

/// `Map::iter`, collected: the members in the order the iterator yields
/// them, each as borrowed key and value.
#[verifier::external_body]
pub(crate) fn map_entries(m: &serde_json::Map<String, Value>) -> (r: Vec<(&String, &Value)>)
    ensures
        r@.len() == entries_view(*m).len(),
        forall|i: int|
            0 <= i < r@.len() ==> (#[trigger] r@[i]).0@ == entries_view(*m)[i].0 && json_view(
                *r@[i].1,
            ) == entries_view(*m)[i].1,
{
    m.iter().collect()
}

} // verus!
