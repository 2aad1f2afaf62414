//! Rendering again with more facts.
//!
//! A rendering that stops with a pending request is run again once the
//! request is answered. A rendering that does not stop so is settled: with
//! more facts after those that were there it gives the same output, and
//! binds the same.

use vstd::prelude::*;
use crate::error::Failure;

use crate::node::{NodeView, TagView};
use crate::parser::{parse_document, skip_spaces};

use crate::render::expression::evaluate_text;
use crate::render::expression::settled::{
    extends, lemma_answer_persists, lemma_answer_text_settled, lemma_more_facts_keep_the_value,
    settled, with_facts,
};
use crate::render::render_context::ContextView;
use crate::render::scoping::{
    lemma_body_restores_scopes, lemma_children_keep_frame, lemma_node_restores_scopes,
};
use crate::render::tag_renderer::{attribute, TagRenderer};
use crate::render::utils::{find_from, is_false_text};
use crate::render::{
    display_text, escape_at, float_of_text, guess_value, interpolate, interpolated, let_source,
    loop_header, loop_value, process_let, render_children, render_document, render_loop,
    render_node, render_tag_node, resolve_attributes, tag_body, typed_value, unquote, Resolved,
    MAX_INCLUDE_DEPTH,
};
use crate::request::{FactView, RequestView};
use crate::text::text;
use crate::value::ValueView;

verus! {

/// A result with the facts of its context replaced.
pub open spec fn lift<T>(r: Result<(T, ContextView), Failure>, more: Seq<FactView>) -> Result<
    (T, ContextView),
    Failure,
> {
    match r {
        Ok((out, after)) => Ok((out, with_facts(after, more))),
        Err(f) => Err(f),
    }
}

pub proof fn lemma_display_text_settled(v: ValueView, facts: Seq<FactView>, more: Seq<FactView>)
    requires
        extends(facts, more),
        settled(display_text(v, facts)),
    ensures
        display_text(v, more) == display_text(v, facts),
{
    match v {
        ValueView::Float(bits) => {
            lemma_answer_text_settled(facts, more, RequestView::FloatText(bits));
        },
        ValueView::Array(_) => {
            lemma_answer_text_settled(facts, more, RequestView::DebugText(v));
        },
        ValueView::Object(_) => {
            lemma_answer_text_settled(facts, more, RequestView::DebugText(v));
        },
        _ => {},
    }
}

pub proof fn lemma_interpolate_settled(
    p: Seq<u8>,
    pos: int,
    acc: Seq<u8>,
    ctx: ContextView,
    more: Seq<FactView>,
)
    requires
        extends(ctx.facts, more),
        settled(interpolate(p, pos, acc, ctx)),
    ensures
        interpolate(p, pos, acc, with_facts(ctx, more)) == interpolate(p, pos, acc, ctx),
    decreases p.len() - pos,
{
    if 0 <= pos < p.len() {
        if pos + 1 < p.len() && p[pos] == '{' as u8 && p[pos + 1] == '{' as u8 {
            match find_from(p, text("}}"), pos + 2) {
                None => {},
                Some(end) => {
                    if pos + 2 <= end && end + 2 <= p.len() {
                        let expression = p.subrange(pos + 2, end);
                        lemma_more_facts_keep_the_value(expression, ctx, more);
                        match evaluate_text(expression, ctx) {
                            Err(_) => {},
                            Ok(v) => {
                                lemma_display_text_settled(v, ctx.facts, more);
                                match display_text(v, ctx.facts) {
                                    Err(_) => {},
                                    Ok(shown) => {
                                        lemma_interpolate_settled(
                                            p,
                                            end + 2,
                                            acc + shown,
                                            ctx,
                                            more,
                                        );
                                    },
                                }
                            },
                        }
                    }
                },
            }
        } else {
            match escape_at(p, pos) {
                Some((byte, spelling)) => {
                    if spelling.len() > 0 && pos + spelling.len() <= p.len() {
                        lemma_interpolate_settled(
                            p,
                            pos + spelling.len(),
                            acc.push(byte),
                            ctx,
                            more,
                        );
                    } else {
                        lemma_interpolate_settled(p, pos + 1, acc.push(p[pos]), ctx, more);
                    }
                },
                None => {
                    lemma_interpolate_settled(p, pos + 1, acc.push(p[pos]), ctx, more);
                },
            }
        }
    }
}

pub proof fn lemma_resolve_attributes_settled(
    attributes: Seq<(Seq<u8>, Seq<u8>)>,
    i: int,
    acc: Resolved,
    ctx: ContextView,
    more: Seq<FactView>,
)
    requires
        extends(ctx.facts, more),
        settled(resolve_attributes(attributes, i, acc, ctx)),
    ensures
        resolve_attributes(attributes, i, acc, with_facts(ctx, more)) == resolve_attributes(
            attributes,
            i,
            acc,
            ctx,
        ),
    decreases attributes.len() - i,
{
    if 0 <= i < attributes.len() {
        let key = attributes[i].0;
        let raw = unquote(attributes[i].1);
        lemma_interpolate_settled(raw, 0, Seq::empty(), ctx, more);
        match interpolated(raw, ctx) {
            Err(_) => {},
            Ok(value) => {
                lemma_resolve_attributes_settled(
                    attributes,
                    i + 1,
                    Resolved {
                        values: if key == text("for") {
                            acc.values
                        } else {
                            acc.values.push((key, value))
                        },
                        for_loop: if key == text("for") {
                            Some(raw)
                        } else {
                            acc.for_loop
                        },
                        has_if: acc.has_if || key == text("if"),
                    },
                    ctx,
                    more,
                );
            },
        }
    }
}

pub proof fn lemma_file_settled(ctx: ContextView, name: Seq<u8>, more: Seq<FactView>)
    requires
        extends(ctx.facts, more),
        settled(ctx.file(name)),
    ensures
        with_facts(ctx, more).file(name) == ctx.file(name),
{
    lemma_answer_persists(ctx.facts, more, RequestView::ReadFile(name));
}

pub proof fn lemma_float_of_text_settled(value: Seq<u8>, facts: Seq<FactView>, more: Seq<FactView>)
    requires
        extends(facts, more),
        settled(float_of_text(value, facts)),
    ensures
        float_of_text(value, more) == float_of_text(value, facts),
{
    lemma_answer_persists(facts, more, RequestView::ParseFloat(value));
}

pub proof fn lemma_guess_value_settled(value: Seq<u8>, facts: Seq<FactView>, more: Seq<FactView>)
    requires
        extends(facts, more),
        settled(guess_value(value, facts)),
    ensures
        guess_value(value, more) == guess_value(value, facts),
{
    if value != text("true") && value != text("false") && crate::value::parse_int(value) is None {
        lemma_float_of_text_settled(value, facts, more);
    }
}

pub proof fn lemma_typed_value_settled(
    kind: Seq<u8>,
    value: Seq<u8>,
    facts: Seq<FactView>,
    more: Seq<FactView>,
)
    requires
        extends(facts, more),
        settled(typed_value(kind, value, facts)),
    ensures
        typed_value(kind, value, more) == typed_value(kind, value, facts),
{
    if kind != text("integer") && kind == text("number") && value.contains('.' as u8) {
        lemma_float_of_text_settled(value, facts, more);
    }
}

/// A settled `let` binds the same, whatever facts follow.
pub proof fn lemma_process_let_settled(
    attributes: Seq<(Seq<u8>, Seq<u8>)>,
    children_result: Seq<Seq<u8>>,
    ctx: ContextView,
    more: Seq<FactView>,
)
    requires
        extends(ctx.facts, more),
        settled(process_let(attributes, children_result, ctx)),
    ensures
        process_let(attributes, children_result, with_facts(ctx, more)) == (match process_let(
            attributes,
            children_result,
            ctx,
        ) {
            Ok(after) => Ok(with_facts(after, more)),
            Err(f) => Err(f),
        }),
{
    match attribute(attributes, text("src")) {
        Some(src) => {
            lemma_file_settled(ctx, src, more);
        },
        None => {},
    }
    match let_source(attributes, children_result, ctx) {
        Err(_) => {},
        Ok(value) => {
            assert(let_source(attributes, children_result, with_facts(ctx, more)) == Ok::<
                Seq<u8>,
                Failure,
            >(value));
            match attribute(attributes, text("name")) {
                None => {},
                Some(name) => {
                    match attribute(attributes, text("type")) {
                        None => {
                            let typed = guess_value(value, ctx.facts);
                            assert(typed is Err ==> process_let(
                                attributes,
                                children_result,
                                ctx,
                            ) == Err::<ContextView, Failure>(typed->Err_0));
                            lemma_guess_value_settled(value, ctx.facts, more);
                        },
                        Some(kind) => {
                            let typed = typed_value(kind, value, ctx.facts);
                            assert(typed is Err ==> process_let(
                                attributes,
                                children_result,
                                ctx,
                            ) == Err::<ContextView, Failure>(typed->Err_0));
                            lemma_typed_value_settled(kind, value, ctx.facts, more);
                        },
                    }
                },
            }
        },
    }
}

/// A settled rendering of a node stays, whatever facts follow.
pub proof fn lemma_node_settled<T: TagRenderer>(
    renderer: &T,
    source: Seq<u8>,
    node: NodeView,
    ctx: ContextView,
    fuel: nat,
    more: Seq<FactView>,
)
    requires
        extends(ctx.facts, more),
        settled(render_node(renderer, source, node, ctx, fuel)),
    ensures
        render_node(renderer, source, node, with_facts(ctx, more), fuel) == lift(
            render_node(renderer, source, node, ctx, fuel),
            more,
        ),
    decreases fuel, node, 0int, 0int,
{
    match node {
        NodeView::Tag(tag) => {
            lemma_tag_settled(renderer, source, tag, ctx, fuel, more);
        },
        NodeView::Text(s, _) => {
            lemma_interpolate_settled(s, 0, Seq::empty(), ctx, more);
        },
        NodeView::Whitespace(_) => {},
    }
}

/// A settled rendering of a tag stays, whatever facts follow.
pub proof fn lemma_tag_settled<T: TagRenderer>(
    renderer: &T,
    source: Seq<u8>,
    tag: TagView,
    ctx: ContextView,
    fuel: nat,
    more: Seq<FactView>,
)
    requires
        extends(ctx.facts, more),
        settled(render_tag_node(renderer, source, tag, ctx, fuel)),
    ensures
        render_tag_node(renderer, source, tag, with_facts(ctx, more), fuel) == lift(
            render_tag_node(renderer, source, tag, ctx, fuel),
            more,
        ),
    decreases fuel, tag, 3int, 0int,
{
    let start = Resolved { values: Seq::empty(), for_loop: None, has_if: false };
    lemma_resolve_attributes_settled(tag.attributes, 0, start, ctx, more);
    match resolve_attributes(tag.attributes, 0, start, ctx) {
        Err(_) => {},
        Ok(resolved) => {
            if resolved.has_if && resolved.for_loop is Some {
            } else {
                match resolved.for_loop {
                    None => {
                        lemma_body_settled(renderer, source, tag, resolved.values, ctx, fuel, more);
                    },
                    Some(instruction) => {
                        match loop_header(instruction) {
                            None => {},
                            Some((name, range)) => {
                                lemma_more_facts_keep_the_value(range, ctx, more);
                                match evaluate_text(range, ctx) {
                                    Ok(ValueView::Array(items)) => {
                                        assert(with_facts(ctx, more).push() == with_facts(
                                            ctx.push(),
                                            more,
                                        ));
                                        lemma_loop_settled(
                                            renderer,
                                            source,
                                            tag,
                                            resolved.values,
                                            name,
                                            items,
                                            0,
                                            Seq::empty(),
                                            ctx.push(),
                                            fuel,
                                            more,
                                        );
                                    },
                                    _ => {},
                                }
                            },
                        }
                    },
                }
            }
        },
    }
}

pub proof fn lemma_loop_settled<T: TagRenderer>(
    renderer: &T,
    source: Seq<u8>,
    tag: TagView,
    attributes: Seq<(Seq<u8>, Seq<u8>)>,
    name: Seq<u8>,
    items: Seq<ValueView>,
    index: int,
    acc: Seq<u8>,
    ctx: ContextView,
    fuel: nat,
    more: Seq<FactView>,
)
    requires
        extends(ctx.facts, more),
        settled(
            render_loop(renderer, source, tag, attributes, name, items, index, acc, ctx, fuel),
        ),
    ensures
        render_loop(
            renderer,
            source,
            tag,
            attributes,
            name,
            items,
            index,
            acc,
            with_facts(ctx, more),
            fuel,
        ) == lift(
            render_loop(renderer, source, tag, attributes, name, items, index, acc, ctx, fuel),
            more,
        ),
    decreases fuel, tag, 2int, items.len() - index,
{
    if 0 <= index < items.len() {
        let bound = ctx.set(name, items[index]).set(
            text("loop"),
            loop_value(index, items.len() as int),
        );
        assert(with_facts(ctx, more).set(name, items[index]).set(
            text("loop"),
            loop_value(index, items.len() as int),
        ) == with_facts(bound, more));
        lemma_body_settled(renderer, source, tag, attributes, bound, fuel, more);
        lemma_body_restores_scopes(renderer, source, tag, attributes, bound, fuel);
        match tag_body(renderer, source, tag, attributes, bound, fuel) {
            Err(_) => {},
            Ok((out, after)) => {
                lemma_loop_settled(
                    renderer,
                    source,
                    tag,
                    attributes,
                    name,
                    items,
                    index + 1,
                    acc + out,
                    after,
                    fuel,
                    more,
                );
            },
        }
    }
}

pub proof fn lemma_body_settled<T: TagRenderer>(
    renderer: &T,
    source: Seq<u8>,
    tag: TagView,
    attributes: Seq<(Seq<u8>, Seq<u8>)>,
    ctx: ContextView,
    fuel: nat,
    more: Seq<FactView>,
)
    requires
        extends(ctx.facts, more),
        settled(tag_body(renderer, source, tag, attributes, ctx, fuel)),
    ensures
        tag_body(renderer, source, tag, attributes, with_facts(ctx, more), fuel) == lift(
            tag_body(renderer, source, tag, attributes, ctx, fuel),
            more,
        ),
    decreases fuel, tag, 1int, 0int,
{
    if attribute(attributes, text("if")) is Some && is_false_text(
        attribute(attributes, text("if"))->Some_0,
    ) {
    } else {
        let children = if tag.children.len() > 0 {
            match render_children(renderer, source, tag, 0, Seq::empty(), ctx.push(), fuel) {
                Err(f) => Err(f),
                Ok((results, after)) => Ok((results, after.pop())),
            }
        } else {
            Ok((Seq::empty(), ctx))
        };
        if tag.children.len() > 0 {
            assert(with_facts(ctx, more).push() == with_facts(ctx.push(), more));
            lemma_children_settled(renderer, source, tag, 0, Seq::empty(), ctx.push(), fuel, more);
            lemma_children_keep_frame(renderer, source, tag, 0, Seq::empty(), ctx.push(), fuel);
        }
        match children {
            Err(_) => {},
            Ok((children_result, after)) => {
                assert(after.facts == ctx.facts);
                if tag.name == text("let") {
                    lemma_process_let_settled(attributes, children_result, after, more);
                } else if tag.name == text("include") {
                    match attribute(attributes, text("src")) {
                        None => {},
                        Some(src) => {
                            lemma_file_settled(after, src, more);
                            match after.file(src) {
                                Err(_) => {},
                                Ok(content) => {
                                    if fuel > 0 {
                                        match parse_document(content, skip_spaces(content, 0)) {
                                            None => {},
                                            Some(root) => {
                                                lemma_tag_settled(
                                                    renderer,
                                                    content,
                                                    root,
                                                    after,
                                                    (fuel - 1) as nat,
                                                    more,
                                                );
                                            },
                                        }
                                    }
                                },
                            }
                        },
                    }
                }
            },
        }
    }
}

pub proof fn lemma_children_settled<T: TagRenderer>(
    renderer: &T,
    source: Seq<u8>,
    tag: TagView,
    i: int,
    acc: Seq<Seq<u8>>,
    ctx: ContextView,
    fuel: nat,
    more: Seq<FactView>,
)
    requires
        extends(ctx.facts, more),
        settled(render_children(renderer, source, tag, i, acc, ctx, fuel)),
    ensures
        render_children(renderer, source, tag, i, acc, with_facts(ctx, more), fuel) == lift(
            render_children(renderer, source, tag, i, acc, ctx, fuel),
            more,
        ),
    decreases fuel, tag, 0int, tag.children.len() - i,
{
    if 0 <= i < tag.children.len() {
        lemma_node_settled(renderer, source, tag.children[i], ctx, fuel, more);
        lemma_node_restores_scopes(renderer, source, tag.children[i], ctx, fuel);
        match render_node(renderer, source, tag.children[i], ctx, fuel) {
            Err(_) => {},
            Ok((out, after)) => {
                lemma_children_settled(
                    renderer,
                    source,
                    tag,
                    i + 1,
                    acc.push(out),
                    after,
                    fuel,
                    more,
                );
            },
        }
    }
}

/// The rendering of a document, once it is settled, is its rendering with
/// all the facts that may follow: a document is rendered again only to get
/// further, never to get another output.
pub proof fn lemma_more_facts_keep_the_rendering<T: TagRenderer>(
    renderer: &T,
    source: Seq<u8>,
    pos: int,
    ctx: ContextView,
    more: Seq<FactView>,
)
    requires
        extends(ctx.facts, more),
        settled(render_document(renderer, source, pos, ctx)),
    ensures
        render_document(renderer, source, pos, with_facts(ctx, more)) == lift(
            render_document(renderer, source, pos, ctx),
            more,
        ),
{
    match parse_document(source, pos) {
        None => {},
        Some(root) => {
            lemma_tag_settled(renderer, source, root, ctx, MAX_INCLUDE_DEPTH as nat, more);
        },
    }
}

} // verus!
