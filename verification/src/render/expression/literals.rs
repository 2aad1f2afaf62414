//! Literals: numbers, strings and the keywords `true`, `false` and `null`.
//!
//! A literal evaluates to itself, whatever the scopes hold.

use vstd::prelude::*;
use crate::error::Failure;
use crate::render::expression::evaluate::{
    access_chain, binary_passes, collect_parts, eval_value, evaluate_tokens, has_operator,
    next_value, number_value, reduce_all, reduce_binary, reduce_not, reference_value,
    string_value, ternary_pass, Level, Operator, PartView,
};
use crate::render::expression::tokenize::TokenView;
use crate::render::render_context::ContextView;
use crate::request::FactView;
use crate::text::text;
use crate::value::ValueView;

verus! {

/// Whether a token is a literal.
pub open spec fn is_literal(token: TokenView) -> bool {
    match token {
        TokenView::Number(_) => true,
        TokenView::String(_) => true,
        TokenView::Ref(name) => name == text("true") || name == text("false") || name == text(
            "null",
        ),
        _ => false,
    }
}

/// The value that a literal denotes. It depends on no scope; the value of
/// a number with a dot is the caller's reading of it.
pub open spec fn literal_value(token: TokenView, facts: Seq<FactView>) -> Result<ValueView, Failure> {
    match token {
        TokenView::Number(literal) => number_value(literal, facts),
        TokenView::String(literal) => string_value(literal),
        TokenView::Ref(name) => if name == text("true") {
            Ok(ValueView::Bool(true))
        } else if name == text("false") {
            Ok(ValueView::Bool(false))
        } else {
            Ok(ValueView::Null)
        },
        _ => Ok(ValueView::Null),
    }
}

/// One value without an operator reduces to itself.
pub proof fn lemma_single_value_reduces(v: ValueView, facts: Seq<FactView>)
    ensures
        reduce_all(seq![PartView::Value(v)], facts) == Ok::<ValueView, Failure>(v),
{
    let parts = seq![PartView::Value(v)];
    let empty = Seq::<PartView>::empty();
    assert(empty.push(parts[0]) =~= parts);
    assert(reduce_not(parts, 1, parts) == Ok::<Seq<PartView>, Failure>(parts));
    assert(reduce_not(parts, 0, empty) == Ok::<Seq<PartView>, Failure>(parts));
    assert forall|level: Level| #[trigger]
        reduce_binary(parts, 0, empty, level, facts) == Ok::<Seq<PartView>, Failure>(parts) by {
        assert(reduce_binary(parts, 1, parts, level, facts) == Ok::<Seq<PartView>, Failure>(parts));
    }
    assert(binary_passes(parts, facts) == Ok::<Seq<PartView>, Failure>(parts));
    assert(!has_operator(parts, Operator::Question));
    assert(ternary_pass(parts) == Ok::<Seq<PartView>, Failure>(parts));
}

/// A literal evaluates to the value it denotes.
pub proof fn lemma_literal_evaluates_to_itself(token: TokenView, ctx: ContextView)
    requires
        is_literal(token),
    ensures
        evaluate_tokens(seq![token], ctx) == literal_value(token, ctx.facts),
{
    let tokens = seq![token];
    let empty = Seq::<PartView>::empty();
    let first = next_value(tokens, 0, ctx);
    match token {
        TokenView::Ref(name) => {
            let base = reference_value(name, ctx);
            assert(access_chain(tokens, 1, base, ctx) == Ok::<(ValueView, int), Failure>((base, 1)));
            assert(first == Ok::<(ValueView, int), Failure>((base, 1)));
            assert(Ok::<ValueView, Failure>(base) == literal_value(token, ctx.facts));
        },
        _ => {},
    }
    match first {
        Err(f) => {
            assert(collect_parts(tokens, 0, empty, ctx) == Err::<(Seq<PartView>, int), Failure>(f));
        },
        Ok((v, next)) => {
            assert(next == 1);
            let parts = empty.push(PartView::Value(v));
            assert(parts =~= seq![PartView::Value(v)]);
            assert(collect_parts(tokens, 1, parts, ctx) == Ok::<(Seq<PartView>, int), Failure>(
                (parts, 1),
            ));
            assert(collect_parts(tokens, 0, empty, ctx) == Ok::<(Seq<PartView>, int), Failure>(
                (parts, 1),
            ));
            lemma_single_value_reduces(v, ctx.facts);
            assert(eval_value(tokens, 0, ctx) == Ok::<(ValueView, int), Failure>((v, 1)));
        },
    }
}

/// A literal evaluates to the same in every context that holds the same
/// facts: the scopes do not matter.
pub proof fn lemma_literal_ignores_scopes(token: TokenView, ctx1: ContextView, ctx2: ContextView)
    requires
        is_literal(token),
        ctx1.facts == ctx2.facts,
    ensures
        evaluate_tokens(seq![token], ctx1) == evaluate_tokens(seq![token], ctx2),
{
    lemma_literal_evaluates_to_itself(token, ctx1);
    lemma_literal_evaluates_to_itself(token, ctx2);
}

} // verus!
