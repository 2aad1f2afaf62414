//! Expressions: the tokenizer and the evaluator.

pub mod cast;
pub mod evaluate;
pub mod literals;
pub mod settled;
pub mod tokenize;
pub mod utils;

use vstd::prelude::*;
use crate::error::{Error, ErrorKind, Failure};
use crate::render::render_context::{ContextView, RenderContext};
use crate::text::text;
use crate::value::{PomlValue, ValueView};
use evaluate::{evaluate_expression_tokens, evaluate_tokens};
use tokenize::{spec_tokenize, tokenize_expression};

verus! {

/// The value of an expression: of its tokens, where it has tokens.
pub open spec fn evaluate_text(expression: Seq<u8>, ctx: ContextView) -> Result<ValueView, Failure> {
    match spec_tokenize(expression) {
        None => Err(Failure::Rejected(ErrorKind::EvaluatorError)),
        Some(tokens) => evaluate_tokens(tokens, ctx),
    }
}

/// Evaluates an expression, given as bytes, in a context.
pub fn evaluate_expression_bytes(expression: &[u8], context: &RenderContext) -> (r: Result<PomlValue, Error>)
    ensures
        match r {
            Ok(v) => evaluate_text(expression@, context@) == Ok::<ValueView, Failure>(v@),
            Err(e) => evaluate_text(expression@, context@) == Err::<ValueView, Failure>(
                e.failure(),
            ),
        },
{
    let tokens = tokenize_expression(expression)?;
    evaluate_expression_tokens(tokens.as_slice(), context)
}

/// Evaluates an expression in a context.
pub fn evaluate_expression(expression: &str, context: &RenderContext) -> (r: Result<
    PomlValue,
    Error,
>)
    ensures
        match r {
            Ok(v) => evaluate_text(text(expression), context@) == Ok::<ValueView, Failure>(v@),
            Err(e) => evaluate_text(text(expression), context@) == Err::<ValueView, Failure>(
                e.failure(),
            ),
        },
{
    evaluate_expression_bytes(expression.as_bytes(), context)
}

} // verus!
