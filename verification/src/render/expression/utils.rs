//! Truthiness.

use vstd::prelude::*;
use crate::value::{float_is_zero, is_zero_float, PomlValue, ValueView};

verus! {

/// Whether a value counts as false: `false`, null, a number that is zero and
/// the empty string do; every other value, an empty array or object too,
/// counts as true.
pub open spec fn is_false(v: ValueView) -> bool {
    match v {
        ValueView::Bool(b) => !b,
        ValueView::Null => true,
        ValueView::Int(i) => i == 0,
        ValueView::Float(bits) => float_is_zero(bits),
        ValueView::String(s) => s.len() == 0,
        _ => false,
    }
}

/// Whether a value counts as false.
pub fn is_false_json_value(value: &PomlValue) -> (r: bool)
    ensures
        r == is_false(value@),
{
    match value {
        PomlValue::Bool(b) => !*b,
        PomlValue::Null => true,
        PomlValue::Int(i) => *i == 0,
        PomlValue::Float(bits) => is_zero_float(*bits),
        PomlValue::String(s) => s.len() == 0,
        _ => false,
    }
}

} // verus!
