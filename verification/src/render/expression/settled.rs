//! Results that no further fact can change.
//!
//! A computation that ends with a pending request is run again once the
//! request is answered. Every other result is settled: with more facts
//! after those that were there, the computation gives the same result.

use vstd::prelude::*;
use crate::error::Failure;
use crate::render::expression::cast::{
    answer_float, answer_text, cast_float, cast_float_pair, cast_text,
};
use crate::render::expression::evaluate::{
    access_chain, apply_binary, array_items, collect_parts, eval_value, float_result,
    next_array, next_object, next_value, object_entries, object_key, reduce_all, reduce_binary,
    reduce_not, Level, Operator, PartView,
};
use crate::render::expression::evaluate_text;
use crate::render::expression::tokenize::{spec_tokenize, TokenView};
use crate::render::render_context::ContextView;
use crate::request::{fact_index, lookup_answer, request_matches, FactView, RequestView};
use crate::value::{insert_entry, Entries, ValueView};

verus! {

/// The facts `more` are the facts `facts` and further ones after them.
pub open spec fn extends(facts: Seq<FactView>, more: Seq<FactView>) -> bool {
    &&& facts.len() <= more.len()
    &&& forall|i: int| 0 <= i < facts.len() ==> #[trigger] more[i] == facts[i]
}

/// A result that is no pending request.
pub open spec fn settled<T>(r: Result<T, Failure>) -> bool {
    match r {
        Err(Failure::Pending(_)) => false,
        _ => true,
    }
}

/// A context with further facts.
pub open spec fn with_facts(ctx: ContextView, more: Seq<FactView>) -> ContextView {
    ContextView { facts: more, ..ctx }
}

pub proof fn lemma_fact_index_persists(
    facts: Seq<FactView>,
    more: Seq<FactView>,
    request: RequestView,
    from: int,
)
    requires
        extends(facts, more),
        0 <= from,
        fact_index(facts, request, from) < facts.len(),
    ensures
        fact_index(more, request, from) == fact_index(facts, request, from),
        from <= fact_index(facts, request, from),
    decreases facts.len() - from,
{
    if from < facts.len() {
        assert(more[from] == facts[from]);
        if !request_matches(facts[from].request, request) {
            lemma_fact_index_persists(facts, more, request, from + 1);
        }
    }
}

/// An answer that the facts hold stays the answer, whatever facts follow.
pub proof fn lemma_answer_persists(facts: Seq<FactView>, more: Seq<FactView>, request: RequestView)
    requires
        extends(facts, more),
        lookup_answer(facts, request) is Some,
    ensures
        lookup_answer(more, request) == lookup_answer(facts, request),
{
    lemma_fact_index_persists(facts, more, request, 0);
    let i = fact_index(facts, request, 0);
    assert(more[i] == facts[i]);
}

pub proof fn lemma_float_result_settled(
    facts: Seq<FactView>,
    more: Seq<FactView>,
    request: RequestView,
)
    requires
        extends(facts, more),
        settled(float_result(facts, request)),
    ensures
        float_result(more, request) == float_result(facts, request),
        answer_float(more, request) == answer_float(facts, request),
{
    lemma_answer_persists(facts, more, request);
}

pub proof fn lemma_answer_text_settled(
    facts: Seq<FactView>,
    more: Seq<FactView>,
    request: RequestView,
)
    requires
        extends(facts, more),
        settled(answer_text(facts, request)),
    ensures
        answer_text(more, request) == answer_text(facts, request),
{
    lemma_answer_persists(facts, more, request);
}

pub proof fn lemma_cast_float_settled(v: ValueView, facts: Seq<FactView>, more: Seq<FactView>)
    requires
        extends(facts, more),
        settled(cast_float(v, facts)),
    ensures
        cast_float(v, more) == cast_float(v, facts),
{
    match v {
        ValueView::Int(i) => {
            lemma_answer_persists(facts, more, RequestView::IntToFloat(i));
        },
        _ => {},
    }
}

pub proof fn lemma_cast_float_pair_settled(
    a: ValueView,
    b: ValueView,
    facts: Seq<FactView>,
    more: Seq<FactView>,
)
    requires
        extends(facts, more),
        settled(cast_float_pair(a, b, facts)),
    ensures
        cast_float_pair(a, b, more) == cast_float_pair(a, b, facts),
{
    lemma_cast_float_settled(a, facts, more);
    if cast_float(a, facts) matches Ok(Some(_)) {
        lemma_cast_float_settled(b, facts, more);
    }
}

pub proof fn lemma_cast_text_settled(v: ValueView, facts: Seq<FactView>, more: Seq<FactView>)
    requires
        extends(facts, more),
        settled(cast_text(v, facts)),
    ensures
        cast_text(v, more) == cast_text(v, facts),
{
    match v {
        ValueView::Float(bits) => {
            lemma_answer_persists(facts, more, RequestView::FloatJsonText(bits));
        },
        _ => {},
    }
}

/// A settled result of an operator stays.
pub proof fn lemma_apply_binary_settled(
    op: Operator,
    a: ValueView,
    b: ValueView,
    facts: Seq<FactView>,
    more: Seq<FactView>,
)
    requires
        extends(facts, more),
        settled(apply_binary(op, a, b, facts)),
    ensures
        apply_binary(op, a, b, more) == apply_binary(op, a, b, facts),
{
    match op {
        Operator::Plus => {
            if crate::render::expression::cast::cast_int_pair(a, b) is None {
                lemma_cast_float_pair_settled(a, b, facts, more);
                match cast_float_pair(a, b, facts) {
                    Ok(Some((x, y))) => {
                        lemma_float_result_settled(facts, more, RequestView::FloatAdd(x, y));
                    },
                    Ok(None) => {
                        lemma_cast_text_settled(a, facts, more);
                        if cast_text(a, facts) is Ok {
                            lemma_cast_text_settled(b, facts, more);
                        }
                    },
                    Err(_) => {},
                }
            }
        },
        Operator::Minus | Operator::Times => {
            if crate::render::expression::cast::cast_int_pair(a, b) is None {
                lemma_cast_float_pair_settled(a, b, facts, more);
                match cast_float_pair(a, b, facts) {
                    Ok(Some((x, y))) => {
                        if op == Operator::Minus {
                            lemma_float_result_settled(facts, more, RequestView::FloatSub(x, y));
                        } else {
                            lemma_float_result_settled(facts, more, RequestView::FloatMul(x, y));
                        }
                    },
                    _ => {},
                }
            }
        },
        Operator::Divide => {
            lemma_cast_float_settled(a, facts, more);
            match cast_float(a, facts) {
                Ok(Some(x)) => {
                    lemma_cast_float_settled(b, facts, more);
                    match cast_float(b, facts) {
                        Ok(Some(y)) => {
                            if !crate::value::float_is_zero(y) {
                                lemma_float_result_settled(
                                    facts,
                                    more,
                                    RequestView::FloatDiv(x, y),
                                );
                            }
                        },
                        _ => {},
                    }
                },
                _ => {},
            }
        },
        Operator::Less | Operator::LessEqual | Operator::Greater | Operator::GreaterEqual => {
            lemma_cast_float_pair_settled(a, b, facts, more);
        },
        _ => {},
    }
}

pub proof fn lemma_reduce_binary_settled(
    parts: Seq<PartView>,
    i: int,
    acc: Seq<PartView>,
    level: Level,
    facts: Seq<FactView>,
    more: Seq<FactView>,
)
    requires
        extends(facts, more),
        settled(reduce_binary(parts, i, acc, level, facts)),
    ensures
        reduce_binary(parts, i, acc, level, more) == reduce_binary(parts, i, acc, level, facts),
    decreases parts.len() - i,
{
    if 0 <= i < parts.len() {
        match parts[i] {
            PartView::Operator(op) => {
                if crate::render::expression::evaluate::level_has(level, op) {
                    if acc.len() == 0 || !(acc.last() is Value) {
                    } else if i + 1 >= parts.len() || !(parts[i + 1] is Value) {
                    } else {
                        let a = acc.last()->Value_0;
                        let b = parts[i + 1]->Value_0;
                        lemma_apply_binary_settled(op, a, b, facts, more);
                        match apply_binary(op, a, b, facts) {
                            Ok(v) => {
                                lemma_reduce_binary_settled(
                                    parts,
                                    i + 2,
                                    acc.drop_last().push(PartView::Value(v)),
                                    level,
                                    facts,
                                    more,
                                );
                            },
                            Err(_) => {},
                        }
                    }
                } else {
                    lemma_reduce_binary_settled(
                        parts,
                        i + 1,
                        acc.push(parts[i]),
                        level,
                        facts,
                        more,
                    );
                }
            },
            _ => {
                lemma_reduce_binary_settled(parts, i + 1, acc.push(parts[i]), level, facts, more);
            },
        }
    }
}

/// A settled value of a list of parts stays.
pub proof fn lemma_reduce_all_settled(
    parts: Seq<PartView>,
    facts: Seq<FactView>,
    more: Seq<FactView>,
)
    requires
        extends(facts, more),
        settled(reduce_all(parts, facts)),
    ensures
        reduce_all(parts, more) == reduce_all(parts, facts),
{
    let empty = Seq::<PartView>::empty();
    match reduce_not(parts, 0, empty) {
        Err(_) => {},
        Ok(negated) => {
            lemma_reduce_binary_settled(negated, 0, empty, Level::Product, facts, more);
            match reduce_binary(negated, 0, empty, Level::Product, facts) {
                Err(_) => {},
                Ok(products) => {
                    lemma_reduce_binary_settled(products, 0, empty, Level::Sum, facts, more);
                    match reduce_binary(products, 0, empty, Level::Sum, facts) {
                        Err(_) => {},
                        Ok(sums) => {
                            lemma_reduce_binary_settled(
                                sums,
                                0,
                                empty,
                                Level::Relational,
                                facts,
                                more,
                            );
                            match reduce_binary(sums, 0, empty, Level::Relational, facts) {
                                Err(_) => {},
                                Ok(relations) => {
                                    lemma_reduce_binary_settled(
                                        relations,
                                        0,
                                        empty,
                                        Level::Equality,
                                        facts,
                                        more,
                                    );
                                    match reduce_binary(
                                        relations,
                                        0,
                                        empty,
                                        Level::Equality,
                                        facts,
                                    ) {
                                        Err(_) => {},
                                        Ok(equalities) => {
                                            lemma_reduce_binary_settled(
                                                equalities,
                                                0,
                                                empty,
                                                Level::And,
                                                facts,
                                                more,
                                            );
                                            match reduce_binary(
                                                equalities,
                                                0,
                                                empty,
                                                Level::And,
                                                facts,
                                            ) {
                                                Err(_) => {},
                                                Ok(conjunctions) => {
                                                    lemma_reduce_binary_settled(
                                                        conjunctions,
                                                        0,
                                                        empty,
                                                        Level::Or,
                                                        facts,
                                                        more,
                                                    );
                                                },
                                            }
                                        },
                                    }
                                },
                            }
                        },
                    }
                },
            }
        },
    }
}

/// A settled value of an expression stays, whatever facts follow.
pub proof fn lemma_eval_value_settled(
    tokens: Seq<TokenView>,
    start: int,
    ctx: ContextView,
    more: Seq<FactView>,
)
    requires
        extends(ctx.facts, more),
        settled(eval_value(tokens, start, ctx)),
    ensures
        eval_value(tokens, start, with_facts(ctx, more)) == eval_value(tokens, start, ctx),
    decreases tokens.len() - start, 3int,
{
    lemma_collect_parts_settled(tokens, start, Seq::empty(), ctx, more);
    match collect_parts(tokens, start, Seq::empty(), ctx) {
        Err(_) => {},
        Ok((parts, pos)) => {
            lemma_reduce_all_settled(parts, ctx.facts, more);
        },
    }
}

#[verifier::rlimit(80)]
#[verifier::spinoff_prover]
pub proof fn lemma_collect_parts_settled(
    tokens: Seq<TokenView>,
    pos: int,
    acc: Seq<PartView>,
    ctx: ContextView,
    more: Seq<FactView>,
)
    requires
        extends(ctx.facts, more),
        settled(collect_parts(tokens, pos, acc, ctx)),
    ensures
        collect_parts(tokens, pos, acc, with_facts(ctx, more)) == collect_parts(
            tokens,
            pos,
            acc,
            ctx,
        ),
    decreases tokens.len() - pos, 2int,
{
    if 0 <= pos < tokens.len() {
        match tokens[pos] {
            TokenView::RightBracket => {},
            TokenView::RightCurly => {},
            TokenView::Comma => {},
            TokenView::RightParenthesis => {},
            TokenView::Dot => {},
            TokenView::LeftParenthesis => {
                lemma_eval_value_settled(tokens, pos + 1, ctx, more);
                match eval_value(tokens, pos + 1, ctx) {
                    Err(_) => {},
                    Ok((v, next)) => {
                        if pos < next < tokens.len() && tokens[next]
                            == TokenView::RightParenthesis {
                            lemma_collect_parts_settled(
                                tokens,
                                next + 1,
                                acc.push(PartView::Value(v)),
                                ctx,
                                more,
                            );
                        }
                    },
                }
            },
            TokenView::ArithOp(name) => {
                lemma_collect_parts_settled(
                    tokens,
                    pos + 1,
                    acc.push(
                        PartView::Operator(
                            crate::render::expression::evaluate::operator_of(name),
                        ),
                    ),
                    ctx,
                    more,
                );
            },
            TokenView::Exclamation => {
                lemma_collect_parts_settled(
                    tokens,
                    pos + 1,
                    acc.push(PartView::Operator(Operator::Not)),
                    ctx,
                    more,
                );
            },
            TokenView::QuestionMark => {
                lemma_collect_parts_settled(
                    tokens,
                    pos + 1,
                    acc.push(PartView::Operator(Operator::Question)),
                    ctx,
                    more,
                );
            },
            TokenView::Colon => {
                lemma_collect_parts_settled(
                    tokens,
                    pos + 1,
                    acc.push(PartView::Operator(Operator::Colon)),
                    ctx,
                    more,
                );
            },
            TokenView::LeftBracket => {
                assert(next_array(tokens, pos, ctx) == array_items(
                    tokens,
                    pos + 1,
                    Seq::empty(),
                    ctx,
                ));
                assert(next_array(tokens, pos, with_facts(ctx, more)) == array_items(
                    tokens,
                    pos + 1,
                    Seq::empty(),
                    with_facts(ctx, more),
                ));
                lemma_array_items_settled(tokens, pos + 1, Seq::empty(), ctx, more);
                match next_array(tokens, pos, ctx) {
                    Err(_) => {},
                    Ok((v, next)) => {
                        if pos < next <= tokens.len() {
                            lemma_collect_parts_settled(
                                tokens,
                                next,
                                acc.push(PartView::Value(v)),
                                ctx,
                                more,
                            );
                        }
                    },
                }
            },
            TokenView::LeftCurly => {
                assert(next_object(tokens, pos, ctx) == object_entries(
                    tokens,
                    pos + 1,
                    Seq::empty(),
                    ctx,
                ));
                assert(next_object(tokens, pos, with_facts(ctx, more)) == object_entries(
                    tokens,
                    pos + 1,
                    Seq::empty(),
                    with_facts(ctx, more),
                ));
                lemma_object_entries_settled(tokens, pos + 1, Seq::empty(), ctx, more);
                match next_object(tokens, pos, ctx) {
                    Err(_) => {},
                    Ok((v, next)) => {
                        if pos < next <= tokens.len() {
                            lemma_collect_parts_settled(
                                tokens,
                                next,
                                acc.push(PartView::Value(v)),
                                ctx,
                                more,
                            );
                        }
                    },
                }
            },
            _ => {
                lemma_next_value_settled(tokens, pos, ctx, more);
                match next_value(tokens, pos, ctx) {
                    Err(_) => {},
                    Ok((v, next)) => {
                        if pos < next <= tokens.len() {
                            lemma_collect_parts_settled(
                                tokens,
                                next,
                                acc.push(PartView::Value(v)),
                                ctx,
                                more,
                            );
                        }
                    },
                }
            },
        }
    }
}

pub proof fn lemma_next_value_settled(
    tokens: Seq<TokenView>,
    pos: int,
    ctx: ContextView,
    more: Seq<FactView>,
)
    requires
        extends(ctx.facts, more),
        settled(next_value(tokens, pos, ctx)),
    ensures
        next_value(tokens, pos, with_facts(ctx, more)) == next_value(tokens, pos, ctx),
    decreases tokens.len() - pos, 1int,
{
    if 0 <= pos < tokens.len() {
        match tokens[pos] {
            TokenView::Ref(name) => {
                lemma_access_chain_settled(
                    tokens,
                    pos + 1,
                    crate::render::expression::evaluate::reference_value(name, ctx),
                    ctx,
                    more,
                );
            },
            TokenView::Number(literal) => {
                if literal.contains('.' as u8) {
                    lemma_float_result_settled(
                        ctx.facts,
                        more,
                        RequestView::ParseFloat(literal),
                    );
                }
            },
            _ => {},
        }
    }
}

pub proof fn lemma_access_chain_settled(
    tokens: Seq<TokenView>,
    pos: int,
    base: ValueView,
    ctx: ContextView,
    more: Seq<FactView>,
)
    requires
        extends(ctx.facts, more),
        settled(access_chain(tokens, pos, base, ctx)),
    ensures
        access_chain(tokens, pos, base, with_facts(ctx, more)) == access_chain(
            tokens,
            pos,
            base,
            ctx,
        ),
    decreases tokens.len() - pos, 0int,
{
    if 0 <= pos < tokens.len() {
        match tokens[pos] {
            TokenView::Dot => {
                if pos + 1 < tokens.len() && tokens[pos + 1] is Ref {
                    match crate::render::expression::evaluate::field_of(
                        base,
                        tokens[pos + 1]->Ref_0,
                    ) {
                        Err(_) => {},
                        Ok(v) => {
                            lemma_access_chain_settled(tokens, pos + 2, v, ctx, more);
                        },
                    }
                }
            },
            TokenView::LeftBracket => {
                lemma_eval_value_settled(tokens, pos + 1, ctx, more);
                match eval_value(tokens, pos + 1, ctx) {
                    Err(_) => {},
                    Ok((index, next)) => {
                        if pos < next < tokens.len() && tokens[next] == TokenView::RightBracket {
                            match crate::render::expression::evaluate::index_of(base, index) {
                                Err(_) => {},
                                Ok(v) => {
                                    lemma_access_chain_settled(tokens, next + 1, v, ctx, more);
                                },
                            }
                        }
                    },
                }
            },
            _ => {},
        }
    }
}

pub proof fn lemma_array_items_settled(
    tokens: Seq<TokenView>,
    pos: int,
    acc: Seq<ValueView>,
    ctx: ContextView,
    more: Seq<FactView>,
)
    requires
        extends(ctx.facts, more),
        settled(array_items(tokens, pos, acc, ctx)),
    ensures
        array_items(tokens, pos, acc, with_facts(ctx, more)) == array_items(tokens, pos, acc, ctx),
    decreases tokens.len() - pos, 4int,
{
    if 0 <= pos < tokens.len() && tokens[pos] != TokenView::RightBracket {
        lemma_eval_value_settled(tokens, pos, ctx, more);
        match eval_value(tokens, pos, ctx) {
            Err(_) => {},
            Ok((item, next)) => {
                if pos < next < tokens.len() {
                    if tokens[next] == TokenView::Comma {
                        lemma_array_items_settled(tokens, next + 1, acc.push(item), ctx, more);
                    } else if tokens[next] == TokenView::RightBracket {
                        lemma_array_items_settled(tokens, next, acc.push(item), ctx, more);
                    }
                }
            },
        }
    }
}

pub proof fn lemma_object_entries_settled(
    tokens: Seq<TokenView>,
    pos: int,
    acc: Entries,
    ctx: ContextView,
    more: Seq<FactView>,
)
    requires
        extends(ctx.facts, more),
        settled(object_entries(tokens, pos, acc, ctx)),
    ensures
        object_entries(tokens, pos, acc, with_facts(ctx, more)) == object_entries(
            tokens,
            pos,
            acc,
            ctx,
        ),
    decreases tokens.len() - pos, 4int,
{
    if 0 <= pos < tokens.len() && tokens[pos] != TokenView::RightCurly {
        match object_key(tokens[pos]) {
            None => {},
            Some(key) => {
                if pos + 1 < tokens.len() && tokens[pos + 1] == TokenView::Colon {
                    lemma_eval_value_settled(tokens, pos + 2, ctx, more);
                    match eval_value(tokens, pos + 2, ctx) {
                        Err(_) => {},
                        Ok((v, next)) => {
                            if pos < next < tokens.len() {
                                if tokens[next] == TokenView::Comma {
                                    lemma_object_entries_settled(
                                        tokens,
                                        next + 1,
                                        insert_entry(acc, key, v),
                                        ctx,
                                        more,
                                    );
                                } else if tokens[next] == TokenView::RightCurly {
                                    lemma_object_entries_settled(
                                        tokens,
                                        next,
                                        insert_entry(acc, key, v),
                                        ctx,
                                        more,
                                    );
                                }
                            }
                        },
                    }
                }
            },
        }
    }
}

/// The value of an expression, once it is settled, is its value with all
/// the facts that may follow: an expression is evaluated again only to get
/// further, never to get another result.
pub proof fn lemma_more_facts_keep_the_value(
    expression: Seq<u8>,
    ctx: ContextView,
    more: Seq<FactView>,
)
    requires
        extends(ctx.facts, more),
        settled(evaluate_text(expression, ctx)),
    ensures
        evaluate_text(expression, with_facts(ctx, more)) == evaluate_text(expression, ctx),
{
    match spec_tokenize(expression) {
        None => {},
        Some(tokens) => {
            lemma_eval_value_settled(tokens, 0, ctx, more);
        },
    }
}

} // verus!
