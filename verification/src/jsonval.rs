//! Reading semi-structured JSON values, behind trusted wrappers of
//! serde_json.  A `serde_json::Value` is opaque here: the wrappers carry
//! values through and hand plain data out; everything that decides on
//! that data is verified code in the parser modules.

use vstd::prelude::*;

verus! {

#[verifier::external_type_specification]
#[verifier::external_body]
pub struct ExValue(serde_json::Value);

/// Relies on serde_json::from_slice: `Some` exactly for well-formed JSON.
#[verifier::external_body]
pub fn json_parse(b: &[u8]) -> (r: Option<serde_json::Value>) {
    serde_json::from_slice(b).ok()
}

/// Relies on serde_json::Value::get: the value under `key` of an object.
#[verifier::external_body]
pub fn json_get<'a>(v: &'a serde_json::Value, key: &str) -> (r: Option<&'a serde_json::Value>) {
    v.get(key)
}

/// Relies on serde_json::Value::as_str: `Some` for a string value.
#[verifier::external_body]
pub fn json_str(v: &serde_json::Value) -> (r: Option<String>) {
    v.as_str().map(|s| s.to_string())
}

/// Relies on serde_json::Value::as_u64.
#[verifier::external_body]
pub fn json_u64(v: &serde_json::Value) -> (r: Option<u64>) {
    v.as_u64()
}

/// Relies on serde_json::Value::as_i64.
#[verifier::external_body]
pub fn json_i64(v: &serde_json::Value) -> (r: Option<i64>) {
    v.as_i64()
}

/// Relies on serde_json::Value's Display: the compact JSON text of the
/// value.
#[verifier::external_body]
pub fn json_text(v: &serde_json::Value) -> (r: String) {
    v.to_string()
}

/// Relies on serde_json::Value::as_array: the element count of an array
/// value.
#[verifier::external_body]
pub fn json_array_len(v: &serde_json::Value) -> (r: Option<usize>) {
    v.as_array().map(|a| a.len())
}

/// Relies on serde_json::Value::as_array and slice::get: the `i`-th
/// element of an array value.
#[verifier::external_body]
pub fn json_array_get<'a>(v: &'a serde_json::Value, i: usize) -> (r: Option<
    &'a serde_json::Value,
>) {
    match v.as_array() {
        Some(a) => a.get(i),
        None => None,
    }
}

/// Relies on serde_json::Value::as_object and Map::values: the member
/// values of an object value, in object order.
#[verifier::external_body]
pub fn json_object_values<'a>(v: &'a serde_json::Value) -> (r: Option<
    Vec<&'a serde_json::Value>,
>) {
    v.as_object().map(|m| m.values().collect())
}

} // verus!
