//! JSON text, read by `serde_json`.
//!
//! Nothing here is proved: the library takes the reading of a JSON text from
//! `serde_json`, and proves what it does with the value that was read.

use vstd::prelude::*;
use serde_json::Value as Json;
use crate::value::{PomlValue, ValueView};

verus! {

/// `serde_json::Value`, of which the library knows nothing but that it is a
/// type.
#[verifier::external_type_specification]
#[verifier::external_body]
pub struct ExJsonValue(serde_json::Value);

/// The value that a JSON text denotes, or `None` where the text is no JSON
/// document.
pub uninterp spec fn json_document(text: Seq<u8>) -> Option<ValueView>;

/// Reads a JSON document. Wraps `serde_json::from_slice`, which reads one
/// JSON value with nothing but whitespace after it, and fails on any other
/// text. What it reads depends on the text alone; the contract gives it the
/// name `json_document`.
#[verifier::external_body]
pub(crate) fn parse_json(text: &[u8]) -> (r: Option<PomlValue>)
    ensures
        match r {
            Some(v) => json_document(text@) == Some(v@),
            None => json_document(text@) is None,
        },
{
    match serde_json::from_slice::<Json>(text) {
        Ok(v) => Some(from_json(&v)),
        Err(_) => None,
    }
}

/// Converts a value of `serde_json` into a value of this library, variant
/// by variant. A number that `as_i64` gives is an integer, and any other is
/// the double that `as_f64` gives; the entries of an object come in the
/// order of their keys, as `serde_json::Map` hands them out.
#[verifier::external_body]
pub(crate) fn from_json(v: &Json) -> PomlValue {
    match v {
        Json::Null => PomlValue::Null,
        Json::Bool(b) => PomlValue::Bool(*b),
        Json::Number(n) => match (n.as_i64(), n.as_f64()) {
            (Some(i), _) => PomlValue::Int(i),
            (None, Some(f)) => PomlValue::Float(f.to_bits()),
            (None, None) => PomlValue::Null,
        },
        Json::String(s) => PomlValue::String(s.as_bytes().to_vec()),
        Json::Array(a) => PomlValue::Array(a.iter().map(from_json).collect()),
        Json::Object(o) => PomlValue::Object(
            o.iter().map(|(k, v)| (k.as_bytes().to_vec(), from_json(v))).collect(),
        ),
    }
}

} // verus!
