//! What rendering does to the scopes.
//!
//! Rendering a node opens and closes scopes in pairs. What a `let` binds
//! inside a tag is bound in the scope of that tag's children, which is gone
//! when the tag is done: the bindings around the tag are then what they were
//! before it.

use vstd::prelude::*;
use crate::node::{NodeView, TagView};
use crate::render::render_context::ContextView;
use crate::render::tag_renderer::TagRenderer;
use crate::render::{
    lemma_assign_all_frame, lemma_frame_pop, lemma_push_pop, lemma_set_frame, loop_value,
    process_let, render_children, render_loop, render_node, render_tag_node, same_frame,
    tag_body,
};
use crate::json::json_document;
use crate::render::let_source;
use crate::render::tag_renderer::attribute;
use crate::text::text;
use crate::value::ValueView;

verus! {

/// A `let` binds in the innermost scope only.
pub proof fn lemma_let_keeps_frame(
    attributes: Seq<(Seq<u8>, Seq<u8>)>,
    children_result: Seq<Seq<u8>>,
    ctx: ContextView,
)
    ensures
        process_let(attributes, children_result, ctx) matches Ok(after) ==> same_frame(ctx, after),
{
    match let_source(attributes, children_result, ctx) {
        Err(_) => {},
        Ok(value) => {
            match attribute(attributes, text("name")) {
                None => {
                    match json_document(value) {
                        Some(ValueView::Object(entries)) => {
                            lemma_assign_all_frame(ctx, entries, 0);
                        },
                        _ => {},
                    }
                },
                Some(name) => {
                    match process_let(attributes, children_result, ctx) {
                        Ok(after) => {
                            let v = choose|v: ValueView| after == ctx.set(name, v);
                            lemma_set_frame(ctx, name, v);
                        },
                        Err(_) => {},
                    }
                },
            }
        },
    }
}

/// Rendering a node leaves every scope but the innermost as it was, and a
/// node that is no `let` tag leaves the innermost as it was too: what is
/// bound inside a tag is not bound after it.
pub proof fn lemma_node_restores_scopes<T: TagRenderer>(
    renderer: &T,
    source: Seq<u8>,
    node: NodeView,
    ctx: ContextView,
    fuel: nat,
)
    ensures
        render_node(renderer, source, node, ctx, fuel) matches Ok((_, after)) ==> same_frame(
            ctx,
            after,
        ) && (!(node is Tag && node->Tag_0.name == text("let")) ==> after == ctx),
    decreases fuel, node, 0int, 0int,
{
    match node {
        NodeView::Tag(tag) => {
            lemma_tag_restores_scopes(renderer, source, tag, ctx, fuel);
        },
        _ => {},
    }
}

/// Rendering a tag leaves every scope but the innermost as it was, and a
/// tag that is no `let` leaves the innermost as it was too.
pub proof fn lemma_tag_restores_scopes<T: TagRenderer>(
    renderer: &T,
    source: Seq<u8>,
    tag: TagView,
    ctx: ContextView,
    fuel: nat,
)
    ensures
        render_tag_node(renderer, source, tag, ctx, fuel) matches Ok((_, after)) ==> same_frame(
            ctx,
            after,
        ) && (tag.name != text("let") ==> after == ctx),
    decreases fuel, tag, 3int, 0int,
{
    match render_tag_node(renderer, source, tag, ctx, fuel) {
        Err(_) => {},
        Ok((_, final_ctx)) => {
            let resolved = crate::render::resolve_attributes(
                tag.attributes,
                0,
                crate::render::Resolved { values: Seq::empty(), for_loop: None, has_if: false },
                ctx,
            )->Ok_0;
            match resolved.for_loop {
                None => {
                    lemma_body_restores_scopes(renderer, source, tag, resolved.values, ctx, fuel);
                },
                Some(instruction) => {
                    let (name, range) = crate::render::loop_header(instruction)->Some_0;
                    let items = crate::render::expression::evaluate_text(range, ctx)->Ok_0->Array_0;
                    lemma_push_pop(ctx);
                    lemma_loop_keeps_frame(
                        renderer,
                        source,
                        tag,
                        resolved.values,
                        name,
                        items,
                        0,
                        Seq::empty(),
                        ctx.push(),
                        fuel,
                    );
                    let after = render_loop(
                        renderer,
                        source,
                        tag,
                        resolved.values,
                        name,
                        items,
                        0,
                        Seq::empty(),
                        ctx.push(),
                        fuel,
                    )->Ok_0.1;
                    lemma_frame_pop(ctx.push(), after);
                },
            }
        },
    }
}

/// The iterations of a `for` leave every scope but the innermost as it was.
pub proof fn lemma_loop_keeps_frame<T: TagRenderer>(
    renderer: &T,
    source: Seq<u8>,
    tag: TagView,
    attributes: Seq<(Seq<u8>, Seq<u8>)>,
    name: Seq<u8>,
    items: Seq<ValueView>,
    index: int,
    acc: Seq<u8>,
    ctx: ContextView,
    fuel: nat,
)
    ensures
        render_loop(renderer, source, tag, attributes, name, items, index, acc, ctx, fuel) matches Ok(
            (_, after),
        ) ==> same_frame(ctx, after),
    decreases fuel, tag, 2int, items.len() - index,
{
    if 0 <= index < items.len() {
        let first = ctx.set(name, items[index]);
        let bound = first.set(text("loop"), loop_value(index, items.len() as int));
        lemma_set_frame(ctx, name, items[index]);
        lemma_set_frame(first, text("loop"), loop_value(index, items.len() as int));
        lemma_body_restores_scopes(renderer, source, tag, attributes, bound, fuel);
        match tag_body(renderer, source, tag, attributes, bound, fuel) {
            Err(_) => {},
            Ok((out, after)) => {
                lemma_loop_keeps_frame(
                    renderer,
                    source,
                    tag,
                    attributes,
                    name,
                    items,
                    index + 1,
                    acc + out,
                    after,
                    fuel,
                );
            },
        }
    }
}

/// The body of a tag leaves every scope but the innermost as it was, and
/// the body of a tag that is no `let` leaves the innermost as it was too.
pub proof fn lemma_body_restores_scopes<T: TagRenderer>(
    renderer: &T,
    source: Seq<u8>,
    tag: TagView,
    attributes: Seq<(Seq<u8>, Seq<u8>)>,
    ctx: ContextView,
    fuel: nat,
)
    ensures
        tag_body(renderer, source, tag, attributes, ctx, fuel) matches Ok((_, after))
            ==> same_frame(ctx, after) && (tag.name != text("let") ==> after == ctx),
    decreases fuel, tag, 1int, 0int,
{
    if attribute(attributes, text("if")) is Some && crate::render::utils::is_false_text(
        attribute(attributes, text("if"))->Some_0,
    ) {
    } else {
        if tag.children.len() > 0 {
            lemma_push_pop(ctx);
            lemma_children_keep_frame(renderer, source, tag, 0, Seq::empty(), ctx.push(), fuel);
            match render_children(renderer, source, tag, 0, Seq::empty(), ctx.push(), fuel) {
                Err(_) => {},
                Ok((results, after)) => {
                    lemma_frame_pop(ctx.push(), after);
                    assert(after.pop() == ctx);
                    if tag.name == text("let") {
                        lemma_let_keeps_frame(attributes, results, ctx);
                    }
                },
            }
        } else {
            if tag.name == text("let") {
                lemma_let_keeps_frame(attributes, Seq::empty(), ctx);
            }
        }
    }
}

/// The children of a tag leave every scope but the innermost as it was.
pub proof fn lemma_children_keep_frame<T: TagRenderer>(
    renderer: &T,
    source: Seq<u8>,
    tag: TagView,
    i: int,
    acc: Seq<Seq<u8>>,
    ctx: ContextView,
    fuel: nat,
)
    ensures
        render_children(renderer, source, tag, i, acc, ctx, fuel) matches Ok((_, after))
            ==> same_frame(ctx, after),
    decreases fuel, tag, 0int, tag.children.len() - i,
{
    if 0 <= i < tag.children.len() {
        lemma_node_restores_scopes(renderer, source, tag.children[i], ctx, fuel);
        match render_node(renderer, source, tag.children[i], ctx, fuel) {
            Err(_) => {},
            Ok((out, after)) => {
                lemma_children_keep_frame(renderer, source, tag, i + 1, acc.push(out), after, fuel);
            },
        }
    }
}

/// The names `poml` and `let` differ.
pub proof fn lemma_poml_is_not_let()
    ensures
        text("poml") != text("let"),
{
    reveal_strlit("poml");
    reveal_strlit("let");
    broadcast use vstd::string::is_ascii_spec_bytes;
    assert(vstd::string::is_ascii("poml"));
    assert(vstd::string::is_ascii("let"));
    assert(text("poml").len() == 4);
    assert(text("let").len() == 3);
}

/// Rendering a document leaves the context as it was: every binding that
/// the document makes is made in a scope of the document's own.
pub proof fn lemma_document_restores_context<T: TagRenderer>(
    renderer: &T,
    source: Seq<u8>,
    pos: int,
    ctx: ContextView,
)
    ensures
        crate::render::render_document(renderer, source, pos, ctx) matches Ok((_, after))
            ==> after == ctx,
{
    match crate::parser::parse_document(source, pos) {
        None => {},
        Some(root) => {
            crate::nesting::lemma_root_is_poml(source, pos);
            lemma_poml_is_not_let();
            lemma_tag_restores_scopes(
                renderer,
                source,
                root,
                ctx,
                crate::render::MAX_INCLUDE_DEPTH as nat,
            );
        },
    }
}

} // verus!
