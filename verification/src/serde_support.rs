//! The bridge from JSON text to documents, through serde_json.

use vstd::prelude::*;

use crate::json::{Json, JsonValue};

verus! {

#[verifier::external_type_specification]
#[verifier::external_body]
pub struct ExSerdeValue(serde_json::Value);

/// What a string of JSON text parses to, if it parses at all.
pub uninterp spec fn parsed_json(s: Seq<char>) -> Option<Json>;

/// Relies on `serde_json::from_str::<serde_json::Value>`: whether a string
/// parses, and to what document, depends on the string alone.
#[verifier::external_body]
pub(crate) fn parse_json(s: &str) -> (r: Result<JsonValue, String>)
    ensures
        r is Ok <==> parsed_json(s@) is Some,
        r matches Ok(v) ==> parsed_json(s@) == Some(v@) && v@.wf(),
{
    match serde_json::from_str::<serde_json::Value>(s) {
        Ok(v) => Ok(convert_serde_value(&v)),
        Err(e) => Err(e.to_string()),
    }
}

/// Relies on the shape of `serde_json::Value`: each variant moves across
/// one for one; the default map type iterates its keys sorted and unique,
/// so the result is well-formed.
#[verifier::external_body]
pub(crate) fn convert_serde_value(v: &serde_json::Value) -> (r: JsonValue)
    ensures
        r@.wf(),
{
    match v {
        serde_json::Value::Null => JsonValue::Null,
        serde_json::Value::Bool(b) => JsonValue::Bool(*b),
        serde_json::Value::Number(n) => JsonValue::Num(n.to_string()),
        serde_json::Value::String(s) => JsonValue::Str(s.clone()),
        serde_json::Value::Array(a) => JsonValue::Arr(a.iter().map(convert_serde_value).collect()),
        serde_json::Value::Object(m) => JsonValue::Obj(
            m.iter().map(|(k, x)| (k.clone(), convert_serde_value(x))).collect(),
        ),
    }
}

} // verus!
