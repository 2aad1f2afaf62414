//! The coercions of the operators: to integer, to floating point, to text.

use vstd::prelude::*;
use crate::error::{Error, ErrorKind, Failure};
use crate::render::render_context::RenderContext;
use crate::request::{lookup_answer, Answer, AnswerView, FactView, Request, RequestView};
use crate::text::{signed_decimal, signed_decimal_bytes, text, copy_range};
use crate::value::{clone_bytes, PomlValue, ValueView, FLOAT_ONE, FLOAT_ZERO};

verus! {

/// A rejection by the evaluator.
pub open spec fn rejected<T>() -> Result<T, Failure> {
    Err(Failure::Rejected(ErrorKind::EvaluatorError))
}

/// The double that answers a request: pending where the facts hold no
/// answer, rejected where the answer is no double.
pub open spec fn answer_float(facts: Seq<FactView>, request: RequestView) -> Result<u64, Failure> {
    match lookup_answer(facts, request) {
        None => Err(Failure::Pending(request)),
        Some(AnswerView::Float(bits)) => Ok(bits),
        Some(_) => rejected(),
    }
}

/// The text that answers a request: pending where the facts hold no answer,
/// rejected where the answer is no text.
pub open spec fn answer_text(facts: Seq<FactView>, request: RequestView) -> Result<Seq<u8>, Failure> {
    match lookup_answer(facts, request) {
        None => Err(Failure::Pending(request)),
        Some(AnswerView::Text(t)) => Ok(t),
        Some(_) => rejected(),
    }
}

/// A value as a 64-bit integer: an integer is itself, `true` is 1 and
/// `false` is 0; nothing else is an integer.
pub open spec fn cast_int(v: ValueView) -> Option<i64> {
    match v {
        ValueView::Bool(b) => Some(
            if b {
                1i64
            } else {
                0i64
            },
        ),
        ValueView::Int(i) => Some(i),
        _ => None,
    }
}

/// Two values as integers, if both are.
pub open spec fn cast_int_pair(a: ValueView, b: ValueView) -> Option<(i64, i64)> {
    match (cast_int(a), cast_int(b)) {
        (Some(x), Some(y)) => Some((x, y)),
        _ => None,
    }
}

/// A value as a double: a double is itself, `true` is 1.0 and `false` is
/// 0.0, and an integer is the double nearest to it, which the caller
/// supplies; nothing else is a double.
pub open spec fn cast_float(v: ValueView, facts: Seq<FactView>) -> Result<Option<u64>, Failure> {
    match v {
        ValueView::Bool(b) => Ok(
            Some(
                if b {
                    FLOAT_ONE
                } else {
                    FLOAT_ZERO
                },
            ),
        ),
        ValueView::Int(i) => match answer_float(facts, RequestView::IntToFloat(i)) {
            Ok(bits) => Ok(Some(bits)),
            Err(f) => Err(f),
        },
        ValueView::Float(bits) => Ok(Some(bits)),
        _ => Ok(None),
    }
}

/// Two values as doubles, if both are. The second is not looked at where
/// the first is none.
pub open spec fn cast_float_pair(a: ValueView, b: ValueView, facts: Seq<FactView>) -> Result<
    Option<(u64, u64)>,
    Failure,
> {
    match cast_float(a, facts) {
        Err(f) => Err(f),
        Ok(None) => Ok(None),
        Ok(Some(x)) => match cast_float(b, facts) {
            Err(f) => Err(f),
            Ok(None) => Ok(None),
            Ok(Some(y)) => Ok(Some((x, y))),
        },
    }
}

/// A value as text: a string is itself, null is `null`, a boolean is `true`
/// or `false`, an integer is its decimal text, and a double is the text
/// that the caller supplies; arrays and objects are no text.
pub open spec fn cast_text(v: ValueView, facts: Seq<FactView>) -> Result<Option<Seq<u8>>, Failure> {
    match v {
        ValueView::Null => Ok(Some(text("null"))),
        ValueView::Bool(b) => Ok(
            Some(
                if b {
                    text("true")
                } else {
                    text("false")
                },
            ),
        ),
        ValueView::Int(i) => Ok(Some(signed_decimal(i as int))),
        ValueView::Float(bits) => match answer_text(facts, RequestView::FloatJsonText(bits)) {
            Ok(t) => Ok(Some(t)),
            Err(f) => Err(f),
        },
        ValueView::String(s) => Ok(Some(s)),
        _ => Ok(None),
    }
}

/// The double that answers a request; see `answer_float`.
pub fn float_answer(context: &RenderContext, request: Request) -> (r: Result<u64, Error>)
    ensures
        match r {
            Ok(bits) => answer_float(context@.facts, request@) == Ok::<u64, Failure>(bits),
            Err(e) => answer_float(context@.facts, request@) == Err::<u64, Failure>(e.failure()),
        },
{
    match context.answer(&request) {
        None => Err(Error::waiting(ErrorKind::EvaluatorError, request)),
        Some(Answer::Float(bits)) => Ok(*bits),
        Some(_) => Err(
            Error::fixed(ErrorKind::EvaluatorError, "The answer to a request is not a number."),
        ),
    }
}

/// The text that answers a request; see `answer_text`.
pub fn text_answer(context: &RenderContext, request: Request) -> (r: Result<Vec<u8>, Error>)
    ensures
        match r {
            Ok(t) => answer_text(context@.facts, request@) == Ok::<Seq<u8>, Failure>(t@),
            Err(e) => answer_text(context@.facts, request@) == Err::<Seq<u8>, Failure>(
                e.failure(),
            ),
        },
{
    match context.answer(&request) {
        None => Err(Error::waiting(ErrorKind::EvaluatorError, request)),
        Some(Answer::Text(t)) => Ok(clone_bytes(t)),
        Some(_) => Err(
            Error::fixed(ErrorKind::EvaluatorError, "The answer to a request is not text."),
        ),
    }
}

/// A value as a 64-bit integer; see `cast_int`.
pub fn cast_as_i64(v: &PomlValue) -> (r: Option<i64>)
    ensures
        r == cast_int(v@),
{
    match v {
        PomlValue::Bool(b) => {
            if *b {
                Some(1)
            } else {
                Some(0)
            }
        },
        PomlValue::Int(i) => Some(*i),
        _ => None,
    }
}

/// Two values as integers; see `cast_int_pair`.
pub fn cast_as_i64_pair(v1: &PomlValue, v2: &PomlValue) -> (r: Option<(i64, i64)>)
    ensures
        r == cast_int_pair(v1@, v2@),
{
    match cast_as_i64(v1) {
        None => None,
        Some(a1) => match cast_as_i64(v2) {
            None => None,
            Some(a2) => Some((a1, a2)),
        },
    }
}

/// A value as a double; see `cast_float`.
pub fn cast_as_f64(v: &PomlValue, context: &RenderContext) -> (r: Result<Option<u64>, Error>)
    ensures
        match r {
            Ok(x) => cast_float(v@, context@.facts) == Ok::<Option<u64>, Failure>(x),
            Err(e) => cast_float(v@, context@.facts) == Err::<Option<u64>, Failure>(e.failure()),
        },
{
    match v {
        PomlValue::Bool(b) => {
            if *b {
                Ok(Some(FLOAT_ONE))
            } else {
                Ok(Some(FLOAT_ZERO))
            }
        },
        PomlValue::Int(i) => {
            let bits = float_answer(context, Request::IntToFloat(*i))?;
            Ok(Some(bits))
        },
        PomlValue::Float(bits) => Ok(Some(*bits)),
        _ => Ok(None),
    }
}

/// Two values as doubles; see `cast_float_pair`.
pub fn cast_as_f64_pair(v1: &PomlValue, v2: &PomlValue, context: &RenderContext) -> (r: Result<
    Option<(u64, u64)>,
    Error,
>)
    ensures
        match r {
            Ok(x) => cast_float_pair(v1@, v2@, context@.facts) == Ok::<
                Option<(u64, u64)>,
                Failure,
            >(x),
            Err(e) => cast_float_pair(v1@, v2@, context@.facts) == Err::<
                Option<(u64, u64)>,
                Failure,
            >(e.failure()),
        },
{
    let a1 = match cast_as_f64(v1, context)? {
        None => {
            return Ok(None);
        },
        Some(x) => x,
    };
    let a2 = match cast_as_f64(v2, context)? {
        None => {
            return Ok(None);
        },
        Some(x) => x,
    };
    Ok(Some((a1, a2)))
}

/// A value as text; see `cast_text`.
pub fn cast_as_string(v: &PomlValue, context: &RenderContext) -> (r: Result<Option<Vec<u8>>, Error>)
    ensures
        match r {
            Ok(Some(t)) => cast_text(v@, context@.facts) == Ok::<Option<Seq<u8>>, Failure>(
                Some(t@),
            ),
            Ok(None) => cast_text(v@, context@.facts) == Ok::<Option<Seq<u8>>, Failure>(None),
            Err(e) => cast_text(v@, context@.facts) == Err::<Option<Seq<u8>>, Failure>(
                e.failure(),
            ),
        },
{
    match v {
        PomlValue::Null => {
            let t = "null".as_bytes();
            let out = copy_range(t, 0, t.len());
            proof {
                assert(out@ =~= text("null"));
            }
            Ok(Some(out))
        },
        PomlValue::Bool(b) => {
            if *b {
                let t = "true".as_bytes();
                let out = copy_range(t, 0, t.len());
                proof {
                    assert(out@ =~= text("true"));
                }
                Ok(Some(out))
            } else {
                let t = "false".as_bytes();
                let out = copy_range(t, 0, t.len());
                proof {
                    assert(out@ =~= text("false"));
                }
                Ok(Some(out))
            }
        },
        PomlValue::Int(i) => Ok(Some(signed_decimal_bytes(*i))),
        PomlValue::Float(bits) => {
            let t = text_answer(context, Request::FloatJsonText(*bits))?;
            Ok(Some(t))
        },
        PomlValue::String(s) => Ok(Some(clone_bytes(s))),
        _ => Ok(None),
    }
}

} // verus!
