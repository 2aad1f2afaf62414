//! The render engine: control flow, scoping, variable binding and text
//! interpolation.

pub mod expression;
pub mod render_context;
pub mod rerun;
pub mod scoping;
pub mod tag_renderer;
pub mod utils;

use vstd::prelude::*;
use vstd::slice::slice_subrange;
use crate::error::{Error, ErrorKind, Failure};
use crate::json::{json_document, parse_json};
use crate::node::{NodeView, PomlNode, PomlTagNode, TagView};
use crate::parser::{parse_document, skip_spaces, PomlParser};
use crate::request::{lookup_answer, Answer, AnswerView, FactView, Request, RequestView};
use crate::text::{checked_text, copy_range, is_text, push_bytes, signed_decimal,
    signed_decimal_bytes, text};
use crate::value::{
    clone_bytes, clone_value, entries_view, float_is_finite, is_finite_float, lemma_array_view,
    lemma_object_view, parse_int, parse_int_bytes, values_view, Entries, PomlValue, ValueView,
};
use expression::cast::{answer_text, text_answer};
use expression::evaluate_text;
use render_context::{assign_all, ContextView, RenderContext};
use tag_renderer::{attribute, find_attribute, pairs_view, TagRenderer};
use utils::{
    buf_match_str, find_bytes, find_from, is_false_text, is_false_bytes, join_all, join_bytes,
    matches_at, texts_view, trim_bytes, trimmed,
};

verus! {

/// How deep documents may include one another.
pub const MAX_INCLUDE_DEPTH: usize = 64;

/// A rejection by the render engine.
pub open spec fn refused<T>() -> Result<T, Failure> {
    Err(Failure::Rejected(ErrorKind::RendererError))
}

// ---------------------------------------------------------------------------
// The model: text interpolation
// ---------------------------------------------------------------------------

/// The text of a value in rendered output: a string as it is, an integer in
/// decimal, a boolean as `true` or `false`, null as `null`; the text of a
/// double, an array or an object is the caller's.
pub open spec fn display_text(v: ValueView, facts: Seq<FactView>) -> Result<Seq<u8>, Failure> {
    match v {
        ValueView::String(s) => Ok(s),
        ValueView::Int(i) => Ok(signed_decimal(i as int)),
        ValueView::Float(bits) => answer_text(facts, RequestView::FloatText(bits)),
        ValueView::Bool(b) => Ok(
            if b {
                text("true")
            } else {
                text("false")
            },
        ),
        ValueView::Null => Ok(text("null")),
        _ => answer_text(facts, RequestView::DebugText(v)),
    }
}

/// The named escape that stands at `pos`: the byte it stands for, and its
/// spelling.
pub open spec fn escape_at(p: Seq<u8>, pos: int) -> Option<(u8, Seq<u8>)> {
    if matches_at(p, pos, text("#quot;")) {
        Some(('"' as u8, text("#quot;")))
    } else if matches_at(p, pos, text("#apos;")) {
        Some(('\'' as u8, text("#apos;")))
    } else if matches_at(p, pos, text("#amp;")) {
        Some(('&' as u8, text("#amp;")))
    } else if matches_at(p, pos, text("#lt;")) {
        Some(('<' as u8, text("#lt;")))
    } else if matches_at(p, pos, text("#gt;")) {
        Some(('>' as u8, text("#gt;")))
    } else if matches_at(p, pos, text("#hash;")) {
        Some(('#' as u8, text("#hash;")))
    } else if matches_at(p, pos, text("#lbrace;")) {
        Some(('{' as u8, text("#lbrace;")))
    } else if matches_at(p, pos, text("#rbrace;")) {
        Some(('}' as u8, text("#rbrace;")))
    } else {
        None
    }
}

/// `acc` followed by the text from `pos` on with its interpolations made:
/// `{{` opens an expression that the first `}}` after it closes, and whose
/// value is spliced in as text; a named escape becomes its byte; every other
/// byte stands for itself. An expression that never closes is refused.
pub open spec fn interpolate(p: Seq<u8>, pos: int, acc: Seq<u8>, ctx: ContextView) -> Result<
    Seq<u8>,
    Failure,
>
    decreases p.len() - pos,
{
    if !(0 <= pos < p.len()) {
        Ok(acc)
    } else if pos + 1 < p.len() && p[pos] == '{' as u8 && p[pos + 1] == '{' as u8 {
        match find_from(p, text("}}"), pos + 2) {
            None => refused(),
            Some(end) => if !(pos + 2 <= end && end + 2 <= p.len()) {
                refused()
            } else {
                match evaluate_text(p.subrange(pos + 2, end), ctx) {
                    Err(f) => Err(f),
                    Ok(v) => match display_text(v, ctx.facts) {
                        Err(f) => Err(f),
                        Ok(shown) => interpolate(p, end + 2, acc + shown, ctx),
                    },
                }
            },
        }
    } else {
        match escape_at(p, pos) {
            Some((byte, spelling)) => if spelling.len() > 0 && pos + spelling.len() <= p.len() {
                interpolate(p, pos + spelling.len(), acc.push(byte), ctx)
            } else {
                interpolate(p, pos + 1, acc.push(p[pos]), ctx)
            },
            None => interpolate(p, pos + 1, acc.push(p[pos]), ctx),
        }
    }
}

/// A text with its interpolations made.
pub open spec fn interpolated(p: Seq<u8>, ctx: ContextView) -> Result<Seq<u8>, Failure> {
    interpolate(p, 0, Seq::empty(), ctx)
}

// ---------------------------------------------------------------------------
// The model: attributes and the `for` header
// ---------------------------------------------------------------------------

/// An attribute value without its quotes.
pub open spec fn unquote(raw: Seq<u8>) -> Seq<u8> {
    if raw.len() >= 2 {
        raw.subrange(1, raw.len() - 1)
    } else {
        Seq::empty()
    }
}

/// The attributes of a tag, resolved for rendering.
pub ghost struct Resolved {
    /// Every attribute but `for`, with its value interpolated.
    pub values: Seq<(Seq<u8>, Seq<u8>)>,
    /// The value of `for`, as it is written.
    pub for_loop: Option<Seq<u8>>,
    /// Whether `if` is among the attributes.
    pub has_if: bool,
}

/// The attributes from index `i` on, resolved after `acc`. The value of
/// every attribute is interpolated, that of `for` too.
pub open spec fn resolve_attributes(
    attributes: Seq<(Seq<u8>, Seq<u8>)>,
    i: int,
    acc: Resolved,
    ctx: ContextView,
) -> Result<Resolved, Failure>
    decreases attributes.len() - i,
{
    if !(0 <= i < attributes.len()) {
        Ok(acc)
    } else {
        let key = attributes[i].0;
        let raw = unquote(attributes[i].1);
        match interpolated(raw, ctx) {
            Err(f) => Err(f),
            Ok(value) => resolve_attributes(
                attributes,
                i + 1,
                Resolved {
                    values: if key == text("for") {
                        acc.values
                    } else {
                        acc.values.push((key, value))
                    },
                    for_loop: if key == text("for") {
                        Some(raw)
                    } else {
                        acc.for_loop
                    },
                    has_if: acc.has_if || key == text("if"),
                },
                ctx,
            ),
        }
    }
}

/// The two parts of `name in range`: what stands before and after the one
/// ` in ` of the instruction, each trimmed. `None` where ` in ` occurs not
/// at all or more than once.
pub open spec fn loop_header(instruction: Seq<u8>) -> Option<(Seq<u8>, Seq<u8>)> {
    match find_from(instruction, text(" in "), 0) {
        None => None,
        Some(i) => {
            let rest = i + text(" in ").len();
            if !(0 <= i && rest <= instruction.len()) {
                None
            } else if find_from(instruction, text(" in "), rest) is Some {
                None
            } else {
                Some(
                    (
                        trimmed(instruction.subrange(0, i)),
                        trimmed(instruction.subrange(rest, instruction.len() as int)),
                    ),
                )
            }
        },
    }
}

/// A count as a 64-bit integer; a count beyond the range is the largest.
pub open spec fn count_value(n: int) -> i64 {
    if n <= i64::MAX {
        n as i64
    } else {
        i64::MAX
    }
}

/// The value of `loop` in the iteration `index` of `length`: an object with
/// `first`, `index`, `last` and `length`.
pub open spec fn loop_value(index: int, length: int) -> ValueView {
    ValueView::Object(
        seq![
            (text("first"), ValueView::Bool(index == 0)),
            (text("index"), ValueView::Int(count_value(index))),
            (text("last"), ValueView::Bool(index + 1 == length)),
            (text("length"), ValueView::Int(count_value(length))),
        ],
    )
}

// ---------------------------------------------------------------------------
// The model: `let`
// ---------------------------------------------------------------------------

/// The one source of the value of a `let`: the attribute `value`, the file
/// that the attribute `src` names, or the joined output of the children.
/// None or more than one is refused.
pub open spec fn let_source(
    attributes: Seq<(Seq<u8>, Seq<u8>)>,
    children_result: Seq<Seq<u8>>,
    ctx: ContextView,
) -> Result<Seq<u8>, Failure> {
    let file = match attribute(attributes, text("src")) {
        Some(src) => match ctx.file(src) {
            Err(f) => Err(f),
            Ok(content) => Ok(Some(content)),
        },
        None => Ok(None),
    };
    match file {
        Err(f) => Err(f),
        Ok(src_value) => {
            let children_value = if children_result.len() > 0 {
                Some(join_all(children_result))
            } else {
                None
            };
            let attribute_value = attribute(attributes, text("value"));
            match (children_value, src_value, attribute_value) {
                (Some(v), None, None) => Ok(v),
                (None, Some(v), None) => Ok(v),
                (None, None, Some(v)) => Ok(v),
                _ => refused(),
            }
        },
    }
}

/// The double that a text denotes, if the caller finds one in it that is
/// finite.
pub open spec fn float_of_text(value: Seq<u8>, facts: Seq<FactView>) -> Result<Option<u64>, Failure> {
    match lookup_answer(facts, RequestView::ParseFloat(value)) {
        None => Err(Failure::Pending(RequestView::ParseFloat(value))),
        Some(AnswerView::Float(bits)) => if float_is_finite(bits) {
            Ok(Some(bits))
        } else {
            Ok(None)
        },
        Some(AnswerView::Nothing) => Ok(None),
        Some(_) => refused(),
    }
}

/// The value of a text that comes without a type, given what it denotes as
/// a double and as JSON: an array or an object where it denotes one, and
/// else the text itself as a string.
pub open spec fn guess_from_json(value: Seq<u8>, parsed: Option<ValueView>) -> ValueView {
    match parsed {
        Some(ValueView::Array(items)) => ValueView::Array(items),
        Some(ValueView::Object(entries)) => ValueView::Object(entries),
        _ => ValueView::String(value),
    }
}

/// The value of a text that comes without a type: a boolean, an integer, a
/// double, an array, an object or a string, whichever reads it first.
pub open spec fn guess_value(value: Seq<u8>, facts: Seq<FactView>) -> Result<ValueView, Failure> {
    if value == text("true") {
        Ok(ValueView::Bool(true))
    } else if value == text("false") {
        Ok(ValueView::Bool(false))
    } else {
        match parse_int(value) {
            Some(i) => Ok(ValueView::Int(i)),
            None => match float_of_text(value, facts) {
                Err(f) => Err(f),
                Ok(Some(bits)) => Ok(ValueView::Float(bits)),
                Ok(None) => Ok(guess_from_json(value, json_document(value))),
            },
        }
    }
}

/// The array or the object that a JSON text denotes.
pub open spec fn json_of_kind(parsed: Option<ValueView>, array: bool) -> Result<ValueView, Failure> {
    match parsed {
        Some(ValueView::Array(items)) => if array {
            Ok(ValueView::Array(items))
        } else {
            refused()
        },
        Some(ValueView::Object(entries)) => if array {
            refused()
        } else {
            Ok(ValueView::Object(entries))
        },
        _ => refused(),
    }
}

/// The value of a text under a type: `integer`, `number`, `boolean`,
/// `array`, `object` or `string`.
pub open spec fn typed_value(kind: Seq<u8>, value: Seq<u8>, facts: Seq<FactView>) -> Result<
    ValueView,
    Failure,
> {
    if kind == text("integer") {
        match parse_int(value) {
            Some(i) => Ok(ValueView::Int(i)),
            None => refused(),
        }
    } else if kind == text("number") {
        if value.contains('.' as u8) {
            match float_of_text(value, facts) {
                Err(f) => Err(f),
                Ok(Some(bits)) => Ok(ValueView::Float(bits)),
                Ok(None) => refused(),
            }
        } else {
            match parse_int(value) {
                Some(i) => Ok(ValueView::Int(i)),
                None => refused(),
            }
        }
    } else if kind == text("boolean") {
        Ok(ValueView::Bool(!is_false_text(value)))
    } else if kind == text("array") {
        json_of_kind(json_document(value), true)
    } else if kind == text("object") {
        json_of_kind(json_document(value), false)
    } else if kind == text("string") {
        Ok(ValueView::String(value))
    } else {
        refused()
    }
}

/// The context after the fields of an object are bound in the innermost
/// scope; anything but an object is refused.
pub open spec fn bind_fields(parsed: Option<ValueView>, ctx: ContextView) -> Result<
    ContextView,
    Failure,
> {
    match parsed {
        Some(ValueView::Object(entries)) => Ok(
            ContextView { scopes: assign_all(ctx.scopes, entries, 0), ..ctx },
        ),
        _ => refused(),
    }
}

/// The context after a `let`. With a `name`, the value is bound to it:
/// read under the `type` where there is one, and guessed where not. Without
/// a name the value has to be a JSON object, whose fields are bound.
pub open spec fn process_let(
    attributes: Seq<(Seq<u8>, Seq<u8>)>,
    children_result: Seq<Seq<u8>>,
    ctx: ContextView,
) -> Result<ContextView, Failure> {
    match let_source(attributes, children_result, ctx) {
        Err(f) => Err(f),
        Ok(value) => match attribute(attributes, text("name")) {
            None => bind_fields(json_document(value), ctx),
            Some(name) => {
                let typed = match attribute(attributes, text("type")) {
                    None => guess_value(value, ctx.facts),
                    Some(kind) => typed_value(kind, value, ctx.facts),
                };
                match typed {
                    Err(f) => Err(f),
                    Ok(v) => Ok(ctx.set(name, v)),
                }
            },
        },
    }
}

// ---------------------------------------------------------------------------
// The model: the tree
// ---------------------------------------------------------------------------

/// What a node renders to in a context, and the context after it. `fuel`
/// bounds the depth of inclusion.
pub open spec fn render_node<T: TagRenderer>(
    renderer: &T,
    source: Seq<u8>,
    node: NodeView,
    ctx: ContextView,
    fuel: nat,
) -> Result<(Seq<u8>, ContextView), Failure>
    decreases fuel, node, 0int, 0int,
{
    match node {
        NodeView::Tag(tag) => render_tag_node(renderer, source, tag, ctx, fuel),
        NodeView::Text(s, _) => match interpolated(s, ctx) {
            Err(f) => Err(f),
            Ok(out) => Ok((out, ctx)),
        },
        NodeView::Whitespace(_) => Ok((text(" "), ctx)),
    }
}

/// What a tag renders to. Its attributes are resolved first. With `for`,
/// the tag is rendered once for every item of the range in a scope of its
/// own, and the results are joined; `if` beside `for` is refused.
pub open spec fn render_tag_node<T: TagRenderer>(
    renderer: &T,
    source: Seq<u8>,
    tag: TagView,
    ctx: ContextView,
    fuel: nat,
) -> Result<(Seq<u8>, ContextView), Failure>
    decreases fuel, tag, 3int, 0int,
{
    match resolve_attributes(
        tag.attributes,
        0,
        Resolved { values: Seq::empty(), for_loop: None, has_if: false },
        ctx,
    ) {
        Err(f) => Err(f),
        Ok(resolved) => if resolved.has_if && resolved.for_loop is Some {
            refused()
        } else {
            match resolved.for_loop {
                None => tag_body(renderer, source, tag, resolved.values, ctx, fuel),
                Some(instruction) => match loop_header(instruction) {
                    None => refused(),
                    Some((name, range)) => match evaluate_text(range, ctx) {
                        Err(f) => Err(f),
                        Ok(ValueView::Array(items)) => match render_loop(
                            renderer,
                            source,
                            tag,
                            resolved.values,
                            name,
                            items,
                            0,
                            Seq::empty(),
                            ctx.push(),
                            fuel,
                        ) {
                            Err(f) => Err(f),
                            Ok((out, after)) => Ok((out, after.pop())),
                        },
                        Ok(_) => refused(),
                    },
                },
            }
        },
    }
}

/// `acc` followed by the iterations from `index` on: each binds the item
/// and `loop`, and renders the tag.
pub open spec fn render_loop<T: TagRenderer>(
    renderer: &T,
    source: Seq<u8>,
    tag: TagView,
    attributes: Seq<(Seq<u8>, Seq<u8>)>,
    name: Seq<u8>,
    items: Seq<ValueView>,
    index: int,
    acc: Seq<u8>,
    ctx: ContextView,
    fuel: nat,
) -> Result<(Seq<u8>, ContextView), Failure>
    decreases fuel, tag, 2int, items.len() - index,
{
    if !(0 <= index < items.len()) {
        Ok((acc, ctx))
    } else {
        let bound = ctx.set(name, items[index]).set(
            text("loop"),
            loop_value(index, items.len() as int),
        );
        match tag_body(renderer, source, tag, attributes, bound, fuel) {
            Err(f) => Err(f),
            Ok((out, after)) => render_loop(
                renderer,
                source,
                tag,
                attributes,
                name,
                items,
                index + 1,
                acc + out,
                after,
                fuel,
            ),
        }
    }
}

/// What a tag renders to once `for` is dealt with. A tag whose `if` stands
/// for false renders to nothing, and nothing of it is evaluated. Else its
/// children are rendered in order, in a scope of their own. `let` and
/// `include` are the engine's; every other tag is the tag renderer's.
pub open spec fn tag_body<T: TagRenderer>(
    renderer: &T,
    source: Seq<u8>,
    tag: TagView,
    attributes: Seq<(Seq<u8>, Seq<u8>)>,
    ctx: ContextView,
    fuel: nat,
) -> Result<(Seq<u8>, ContextView), Failure>
    decreases fuel, tag, 1int, 0int,
{
    if attribute(attributes, text("if")) is Some && is_false_text(
        attribute(attributes, text("if"))->Some_0,
    ) {
        Ok((Seq::empty(), ctx))
    } else {
        let children = if tag.children.len() > 0 {
            match render_children(renderer, source, tag, 0, Seq::empty(), ctx.push(), fuel) {
                Err(f) => Err(f),
                Ok((results, after)) => Ok((results, after.pop())),
            }
        } else {
            Ok((Seq::empty(), ctx))
        };
        match children {
            Err(f) => Err(f),
            Ok((children_result, after)) => if tag.name == text("let") {
                match process_let(attributes, children_result, after) {
                    Err(f) => Err(f),
                    Ok(bound) => Ok((Seq::empty(), bound)),
                }
            } else if tag.name == text("include") {
                match attribute(attributes, text("src")) {
                    None => refused(),
                    Some(src) => match after.file(src) {
                        Err(f) => Err(f),
                        Ok(content) => if fuel == 0 {
                            refused()
                        } else {
                            match parse_document(content, skip_spaces(content, 0)) {
                                None => Err(Failure::Rejected(ErrorKind::ParserError)),
                                Some(root) => match render_tag_node(
                                    renderer,
                                    content,
                                    root,
                                    after,
                                    (fuel - 1) as nat,
                                ) {
                                    Err(f) => Err(f),
                                    Ok((out, _)) => Ok((out, after)),
                                },
                            }
                        },
                    },
                }
            } else {
                match renderer.written(tag, attributes, children_result, source) {
                    Err(f) => Err(f),
                    Ok(out) => Ok((out, after)),
                }
            },
        }
    }
}

/// `acc` followed by what the children of a tag from index `i` on render
/// to, in document order.
pub open spec fn render_children<T: TagRenderer>(
    renderer: &T,
    source: Seq<u8>,
    tag: TagView,
    i: int,
    acc: Seq<Seq<u8>>,
    ctx: ContextView,
    fuel: nat,
) -> Result<(Seq<Seq<u8>>, ContextView), Failure>
    decreases fuel, tag, 0int, tag.children.len() - i,
{
    if !(0 <= i < tag.children.len()) {
        Ok((acc, ctx))
    } else {
        match render_node(renderer, source, tag.children[i], ctx, fuel) {
            Err(f) => Err(f),
            Ok((out, after)) => render_children(
                renderer,
                source,
                tag,
                i + 1,
                acc.push(out),
                after,
                fuel,
            ),
        }
    }
}

/// What a document renders to: it is parsed from its first byte that is no
/// whitespace, and its root is rendered.
pub open spec fn render_document<T: TagRenderer>(
    renderer: &T,
    source: Seq<u8>,
    pos: int,
    ctx: ContextView,
) -> Result<(Seq<u8>, ContextView), Failure> {
    match parse_document(source, pos) {
        None => Err(Failure::Rejected(ErrorKind::ParserError)),
        Some(root) => render_tag_node(renderer, source, root, ctx, MAX_INCLUDE_DEPTH as nat),
    }
}

/// Two contexts with the same facts and the same scopes but for the
/// innermost, which may differ.
pub open spec fn same_frame(before: ContextView, after: ContextView) -> bool {
    &&& after.facts == before.facts
    &&& after.scopes.len() == before.scopes.len()
    &&& forall|i: int| 0 <= i < before.scopes.len() - 1 ==> after.scopes[i] == before.scopes[i]
}

// ---------------------------------------------------------------------------
// Facts about contexts
// ---------------------------------------------------------------------------

/// A binding changes the innermost scope only.
pub proof fn lemma_set_frame(ctx: ContextView, name: Seq<u8>, value: ValueView)
    ensures
        same_frame(ctx, ctx.set(name, value)),
        ctx.scopes.len() > 0 ==> ctx.set(name, value).pop() == ctx.pop(),
{
    if ctx.scopes.len() > 0 {
        assert(ctx.set(name, value).scopes.drop_last() =~= ctx.scopes.drop_last());
    }
}

/// Bindings change the innermost scope only.
pub proof fn lemma_assign_all_frame(ctx: ContextView, entries: Entries, i: int)
    requires
        0 <= i,
    ensures
        same_frame(ctx, ContextView { scopes: assign_all(ctx.scopes, entries, i), ..ctx }),
    decreases entries.len() - i,
{
    if i < entries.len() {
        let next = ctx.set(entries[i].0, entries[i].1);
        lemma_set_frame(ctx, entries[i].0, entries[i].1);
        lemma_assign_all_frame(next, entries, i + 1);
    }
}

/// Two contexts of one frame are the same below their innermost scope.
pub proof fn lemma_frame_pop(before: ContextView, after: ContextView)
    requires
        same_frame(before, after),
        before.scopes.len() > 0,
    ensures
        after.pop() == before.pop(),
{
    assert(after.scopes.drop_last() =~= before.scopes.drop_last());
}

/// In a new scope and out of it again, the context is what it was before.
pub proof fn lemma_push_pop(ctx: ContextView)
    ensures
        ctx.push().pop() == ctx,
        ctx.push().scopes.len() > 0,
{
    assert(ctx.push().scopes.drop_last() =~= ctx.scopes);
}

// ---------------------------------------------------------------------------
// Text interpolation
// ---------------------------------------------------------------------------

fn refuse<T>(message: &str) -> (r: Result<T, Error>)
    ensures
        r is Err,
        r->Err_0.rejects(ErrorKind::RendererError),
{
    Err(Error::fixed(ErrorKind::RendererError, message))
}

fn refuse_about<T>(message: &str, detail: &[u8]) -> (r: Result<T, Error>)
    ensures
        r is Err,
        r->Err_0.rejects(ErrorKind::RendererError),
{
    Err(Error::about(ErrorKind::RendererError, message, detail, ""))
}

fn literal(s: &str) -> (r: Vec<u8>)
    ensures
        r@ == text(s),
{
    let bytes = s.as_bytes();
    let out = copy_range(bytes, 0, bytes.len());
    proof {
        assert(out@ =~= text(s));
    }
    out
}

/// The text of a value in rendered output; see `display_text`.
pub fn render_value(value: &PomlValue, context: &RenderContext) -> (r: Result<Vec<u8>, Error>)
    ensures
        match r {
            Ok(out) => display_text(value@, context@.facts) == Ok::<Seq<u8>, Failure>(out@),
            Err(e) => display_text(value@, context@.facts) == Err::<Seq<u8>, Failure>(
                e.failure(),
            ),
        },
{
    match value {
        PomlValue::String(s) => Ok(clone_bytes(s)),
        PomlValue::Int(i) => Ok(signed_decimal_bytes(*i)),
        PomlValue::Float(bits) => text_answer(context, Request::FloatText(*bits)),
        PomlValue::Bool(b) => {
            if *b {
                Ok(literal("true"))
            } else {
                Ok(literal("false"))
            }
        },
        PomlValue::Null => Ok(literal("null")),
        _ => text_answer(context, Request::DebugText(clone_value(value))),
    }
}

/// The named escape that stands at `pos`: its byte and its length.
fn escape(p: &[u8], pos: usize) -> (r: Option<(u8, usize)>)
    ensures
        match r {
            Some((byte, n)) => escape_at(p@, pos as int) is Some && escape_at(p@, pos as int)->Some_0.0
                == byte && escape_at(p@, pos as int)->Some_0.1.len() == n,
            None => escape_at(p@, pos as int) is None,
        },
{
    if buf_match_str(p, pos, "#quot;") {
        Some(('"' as u8, "#quot;".as_bytes().len()))
    } else if buf_match_str(p, pos, "#apos;") {
        Some(('\'' as u8, "#apos;".as_bytes().len()))
    } else if buf_match_str(p, pos, "#amp;") {
        Some(('&' as u8, "#amp;".as_bytes().len()))
    } else if buf_match_str(p, pos, "#lt;") {
        Some(('<' as u8, "#lt;".as_bytes().len()))
    } else if buf_match_str(p, pos, "#gt;") {
        Some(('>' as u8, "#gt;".as_bytes().len()))
    } else if buf_match_str(p, pos, "#hash;") {
        Some(('#' as u8, "#hash;".as_bytes().len()))
    } else if buf_match_str(p, pos, "#lbrace;") {
        Some(('{' as u8, "#lbrace;".as_bytes().len()))
    } else if buf_match_str(p, pos, "#rbrace;") {
        Some(('}' as u8, "#rbrace;".as_bytes().len()))
    } else {
        None
    }
}

/// A text with its interpolations made; see `interpolate`.
#[verifier::loop_isolation(false)]
pub fn render_text(p: &[u8], context: &RenderContext) -> (r: Result<Vec<u8>, Error>)
    ensures
        match r {
            Ok(out) => interpolated(p@, context@) == Ok::<Seq<u8>, Failure>(out@),
            Err(e) => interpolated(p@, context@) == Err::<Seq<u8>, Failure>(e.failure()),
        },
{
    let ghost ctx = context@;
    let mut answer_buf: Vec<u8> = Vec::new();
    let mut pos: usize = 0;
    while pos < p.len()
        invariant
            pos <= p@.len(),
            interpolated(p@, ctx) == interpolate(p@, pos as int, answer_buf@, ctx),
        decreases p@.len() - pos,
    {
        if p.len() - pos > 1 && p[pos] == '{' as u8 && p[pos + 1] == '{' as u8 {
            let expression_start = pos + 2;
            let expression_end = match find_bytes(p, "}}".as_bytes(), expression_start) {
                Some(end) => end,
                None => {
                    return refuse("Expression end not found in text content.");
                },
            };
            if p.len() - expression_end < 2 {
                return refuse("Expression end not found in text content.");
            }
            let expression = slice_subrange(p, expression_start, expression_end);
            let result = context.evaluate_bytes(expression)?;
            let result_str = render_value(&result, context)?;
            push_bytes(&mut answer_buf, result_str.as_slice());
            pos = expression_end + 2;
        } else {
            match escape(p, pos) {
                Some((byte, n)) => {
                    if n > 0 && n <= p.len() - pos {
                        answer_buf.push(byte);
                        pos = pos + n;
                    } else {
                        answer_buf.push(p[pos]);
                        pos = pos + 1;
                    }
                },
                None => {
                    answer_buf.push(p[pos]);
                    pos = pos + 1;
                },
            }
        }
    }
    Ok(answer_buf)
}

// ---------------------------------------------------------------------------
// Attributes and the `for` header
// ---------------------------------------------------------------------------

/// An attribute value without its quotes.
pub fn strip_quotes<'a>(raw: &'a [u8]) -> (r: &'a [u8])
    ensures
        r@ == unquote(raw@),
{
    if raw.len() >= 2 {
        slice_subrange(raw, 1, raw.len() - 1)
    } else {
        let empty = slice_subrange(raw, 0, 0);
        proof {
            assert(empty@ =~= Seq::<u8>::empty());
        }
        empty
    }
}

/// The attributes of a tag, resolved for rendering: every attribute but
/// `for` with its value interpolated, the value of `for` as it is written,
/// and whether `if` is among them.
#[verifier::loop_isolation(false)]
pub fn resolve_tag_attributes<'a>(tag_node: &PomlTagNode<'a>, context: &RenderContext) -> (r:
    Result<(Vec<(Vec<u8>, Vec<u8>)>, Option<&'a [u8]>, bool), Error>)
    ensures
        match r {
            Ok((values, for_loop, has_if)) => resolve_attributes(
                tag_node@.attributes,
                0,
                Resolved { values: Seq::empty(), for_loop: None, has_if: false },
                context@,
            ) == Ok::<Resolved, Failure>(
                Resolved {
                    values: pairs_view(values@),
                    for_loop: match for_loop {
                        Some(instruction) => Some(instruction@),
                        None => None,
                    },
                    has_if,
                },
            ),
            Err(e) => resolve_attributes(
                tag_node@.attributes,
                0,
                Resolved { values: Seq::empty(), for_loop: None, has_if: false },
                context@,
            ) == Err::<Resolved, Failure>(e.failure()),
        },
{
    let ghost attributes = tag_node@.attributes;
    let ghost ctx = context@;
    let mut attribute_values: Vec<(Vec<u8>, Vec<u8>)> = Vec::new();
    let mut for_loop_attribute: Option<&'a [u8]> = None;
    let mut if_attribute_present = false;
    let mut i: usize = 0;
    proof {
        assert(pairs_view(attribute_values@) =~= Seq::empty());
    }
    while i < tag_node.attributes.len()
        invariant
            i <= tag_node.attributes.len(),
            resolve_attributes(
                attributes,
                0,
                Resolved { values: Seq::empty(), for_loop: None, has_if: false },
                ctx,
            ) == resolve_attributes(
                attributes,
                i as int,
                Resolved {
                    values: pairs_view(attribute_values@),
                    for_loop: match for_loop_attribute {
                        Some(instruction) => Some(instruction@),
                        None => None,
                    },
                    has_if: if_attribute_present,
                },
                ctx,
            ),
        decreases tag_node.attributes.len() - i,
    {
        let ghost before = pairs_view(attribute_values@);
        let key: &'a [u8] = tag_node.attributes[i].0;
        let value_raw: &'a [u8] = tag_node.attributes[i].1;
        assert(attributes[i as int] == (key@, value_raw@));
        let raw = strip_quotes(value_raw);
        let value = render_text(raw, context)?;
        if is_text(key, "if") {
            if_attribute_present = true;
        }
        if is_text(key, "for") {
            for_loop_attribute = Some(raw);
        } else {
            let owned_key = copy_range(key, 0, key.len());
            proof {
                assert(owned_key@ =~= key@);
            }
            attribute_values.push((owned_key, value));
            proof {
                assert(pairs_view(attribute_values@) =~= before.push((key@, value@)));
            }
        }
        i = i + 1;
    }
    Ok((attribute_values, for_loop_attribute, if_attribute_present))
}

/// The two parts of `name in range`; see `loop_header`.
pub fn split_loop_header<'a>(instruction: &'a [u8]) -> (r: Option<(&'a [u8], &'a [u8])>)
    ensures
        match r {
            Some((name, range)) => loop_header(instruction@) == Some((name@, range@)),
            None => loop_header(instruction@) is None,
        },
{
    let pattern = " in ".as_bytes();
    let len = instruction.len();
    match find_bytes(instruction, pattern, 0) {
        None => None,
        Some(i) => {
            let rest = i + pattern.len();
            if find_bytes(instruction, pattern, rest).is_some() {
                None
            } else {
                let name = trim_bytes(slice_subrange(instruction, 0, i));
                let range = trim_bytes(slice_subrange(instruction, rest, len));
                Some((name, range))
            }
        },
    }
}

fn count(n: usize) -> (r: i64)
    ensures
        r == count_value(n as int),
{
    if (n as u64) <= 0x7fff_ffff_ffff_ffffu64 {
        n as i64
    } else {
        i64::MAX
    }
}

/// The value of `loop` in the iteration `index` of `length`.
pub fn loop_variable(index: usize, length: usize) -> (r: PomlValue)
    requires
        index < length,
    ensures
        r@ == loop_value(index as int, length as int),
{
    let mut entries: Vec<(Vec<u8>, PomlValue)> = Vec::new();
    entries.push((literal("first"), PomlValue::Bool(index == 0)));
    entries.push((literal("index"), PomlValue::Int(count(index))));
    entries.push((literal("last"), PomlValue::Bool(index + 1 == length)));
    entries.push((literal("length"), PomlValue::Int(count(length))));
    proof {
        lemma_object_view(entries);
        assert(entries_view(entries@) =~= loop_value(index as int, length as int)->Object_0);
    }
    PomlValue::Object(entries)
}

// ---------------------------------------------------------------------------
// `let`
// ---------------------------------------------------------------------------

/// The value of an optional value.
pub open spec fn option_view(v: Option<PomlValue>) -> Option<ValueView> {
    match v {
        Some(x) => Some(x@),
        None => None,
    }
}

/// The one source of the value of a `let`; see `let_source`.
pub fn let_source_value(
    attribute_values: &[(Vec<u8>, Vec<u8>)],
    children_result: &Vec<Vec<u8>>,
    context: &RenderContext,
) -> (r: Result<Vec<u8>, Error>)
    ensures
        match r {
            Ok(v) => let_source(
                pairs_view(attribute_values@),
                texts_view(children_result@),
                context@,
            ) == Ok::<Seq<u8>, Failure>(v@),
            Err(e) => let_source(
                pairs_view(attribute_values@),
                texts_view(children_result@),
                context@,
            ) == Err::<Seq<u8>, Failure>(e.failure()),
        },
{
    let src_value = match find_attribute(attribute_values, "src") {
        Some(src) => Some(context.file_content(src.as_slice())?),
        None => None,
    };
    let children_value = if children_result.len() > 0 {
        Some(join_bytes(children_result))
    } else {
        None
    };
    let attribute_value = find_attribute(attribute_values, "value");
    match (children_value, src_value, attribute_value) {
        (Some(v), None, None) => Ok(v),
        (None, Some(v), None) => Ok(v),
        (None, None, Some(v)) => Ok(clone_bytes(v)),
        (None, None, None) => refuse("No value is provided for the <let> node"),
        _ => refuse("More than one value is provided for the <let> node."),
    }
}

/// The double that a text denotes; see `float_of_text`.
pub fn float_from_text(value: &[u8], context: &RenderContext) -> (r: Result<Option<u64>, Error>)
    ensures
        match r {
            Ok(x) => float_of_text(value@, context@.facts) == Ok::<Option<u64>, Failure>(x),
            Err(e) => float_of_text(value@, context@.facts) == Err::<Option<u64>, Failure>(
                e.failure(),
            ),
        },
{
    let owned = copy_range(value, 0, value.len());
    proof {
        assert(owned@ =~= value@);
    }
    let request = Request::ParseFloat(owned);
    match context.answer(&request) {
        None => Err(Error::waiting(ErrorKind::RendererError, request)),
        Some(Answer::Float(bits)) => {
            if is_finite_float(*bits) {
                Ok(Some(*bits))
            } else {
                Ok(None)
            }
        },
        Some(Answer::Nothing) => Ok(None),
        Some(_) => refuse("The answer to a request is not a number."),
    }
}

/// The value of an untyped text that is no boolean and no number, given
/// what it denotes as JSON; see `guess_from_json`.
pub fn guess_from_parsed(value: &[u8], parsed: Option<PomlValue>) -> (r: PomlValue)
    ensures
        r@ == guess_from_json(value@, option_view(parsed)),
{
    match parsed {
        Some(PomlValue::Array(items)) => {
            proof {
                lemma_array_view(items);
            }
            PomlValue::Array(items)
        },
        Some(PomlValue::Object(entries)) => {
            proof {
                lemma_object_view(entries);
            }
            PomlValue::Object(entries)
        },
        _ => {
            let owned = copy_range(value, 0, value.len());
            proof {
                assert(owned@ =~= value@);
            }
            PomlValue::String(owned)
        },
    }
}

/// The value of a text that comes without a type; see `guess_value`.
pub fn guess_variable(value: &[u8], context: &RenderContext) -> (r: Result<PomlValue, Error>)
    ensures
        match r {
            Ok(v) => guess_value(value@, context@.facts) == Ok::<ValueView, Failure>(v@),
            Err(e) => guess_value(value@, context@.facts) == Err::<ValueView, Failure>(
                e.failure(),
            ),
        },
{
    if is_text(value, "true") {
        return Ok(PomlValue::Bool(true));
    }
    if is_text(value, "false") {
        return Ok(PomlValue::Bool(false));
    }
    if let Some(int_value) = parse_int_bytes(value) {
        return Ok(PomlValue::Int(int_value));
    }
    if let Some(bits) = float_from_text(value, context)? {
        return Ok(PomlValue::Float(bits));
    }
    Ok(guess_from_parsed(value, parse_json(value)))
}

/// The array or the object that a JSON text denotes; see `json_of_kind`.
pub fn expect_json(parsed: Option<PomlValue>, array: bool) -> (r: Result<PomlValue, Error>)
    ensures
        match r {
            Ok(v) => json_of_kind(option_view(parsed), array) == Ok::<ValueView, Failure>(v@),
            Err(e) => json_of_kind(option_view(parsed), array) == Err::<ValueView, Failure>(
                e.failure(),
            ),
        },
{
    match parsed {
        Some(PomlValue::Array(items)) => {
            proof {
                lemma_array_view(items);
            }
            if array {
                Ok(PomlValue::Array(items))
            } else {
                refuse("Failed to parse value to object")
            }
        },
        Some(PomlValue::Object(entries)) => {
            proof {
                lemma_object_view(entries);
            }
            if array {
                refuse("Failed to parse value to array")
            } else {
                Ok(PomlValue::Object(entries))
            }
        },
        _ => refuse("Failed to parse value to array or object"),
    }
}

fn contains_dot(value: &[u8]) -> (r: bool)
    ensures
        r == value@.contains('.' as u8),
{
    let mut i: usize = 0;
    while i < value.len()
        invariant
            i <= value.len(),
            forall|k: int| 0 <= k < i ==> value@[k] != '.' as u8,
        decreases value.len() - i,
    {
        if value[i] == '.' as u8 {
            return true;
        }
        i = i + 1;
    }
    false
}

/// The value of a text under a type; see `typed_value`.
pub fn typed_variable(kind: &[u8], value: &[u8], context: &RenderContext) -> (r: Result<
    PomlValue,
    Error,
>)
    ensures
        match r {
            Ok(v) => typed_value(kind@, value@, context@.facts) == Ok::<ValueView, Failure>(v@),
            Err(e) => typed_value(kind@, value@, context@.facts) == Err::<ValueView, Failure>(
                e.failure(),
            ),
        },
{
    if is_text(kind, "integer") {
        match parse_int_bytes(value) {
            Some(v) => Ok(PomlValue::Int(v)),
            None => refuse_about("Failed to convert value to integer ", value),
        }
    } else if is_text(kind, "number") {
        if contains_dot(value) {
            match float_from_text(value, context)? {
                Some(bits) => Ok(PomlValue::Float(bits)),
                None => refuse_about("Failed to convert value to number ", value),
            }
        } else {
            match parse_int_bytes(value) {
                Some(v) => Ok(PomlValue::Int(v)),
                None => refuse_about("Failed to convert value to number ", value),
            }
        }
    } else if is_text(kind, "boolean") {
        Ok(PomlValue::Bool(!is_false_bytes(value)))
    } else if is_text(kind, "array") {
        expect_json(parse_json(value), true)
    } else if is_text(kind, "object") {
        expect_json(parse_json(value), false)
    } else if is_text(kind, "string") {
        let owned = copy_range(value, 0, value.len());
        proof {
            assert(owned@ =~= value@);
        }
        Ok(PomlValue::String(owned))
    } else {
        refuse_about("Unknown type for variable: ", kind)
    }
}

/// Binds the fields of an object in the innermost scope; see
/// `bind_fields`. Where it fails the context is left as it was.
pub fn bind_object_fields(context: &mut RenderContext, parsed: Option<PomlValue>) -> (r: Result<
    (),
    Error,
>)
    ensures
        same_frame(old(context)@, final(context)@),
        match r {
            Ok(_) => bind_fields(option_view(parsed), old(context)@) == Ok::<
                ContextView,
                Failure,
            >(final(context)@),
            Err(e) => bind_fields(option_view(parsed), old(context)@) == Err::<
                ContextView,
                Failure,
            >(e.failure()) && final(context)@ == old(context)@,
        },
{
    match parsed {
        Some(PomlValue::Object(value_obj)) => {
            let ghost entries = entries_view(value_obj@);
            proof {
                lemma_object_view(value_obj);
                lemma_assign_all_frame(context@, entries, 0);
            }
            let mut i: usize = 0;
            while i < value_obj.len()
                invariant
                    i <= value_obj.len(),
                    entries == entries_view(value_obj@),
                    context@.facts == old(context)@.facts,
                    assign_all(old(context)@.scopes, entries, 0) == assign_all(
                        context@.scopes,
                        entries,
                        i as int,
                    ),
                decreases value_obj.len() - i,
            {
                context.bind(value_obj[i].0.as_slice(), clone_value(&value_obj[i].1));
                i = i + 1;
            }
            Ok(())
        },
        _ => refuse("Only object value can be used to set context variables"),
    }
}

/// Processes a `let`; see `process_let`. It writes nothing.
pub fn process_let_node(
    attribute_values: &[(Vec<u8>, Vec<u8>)],
    children_result: &Vec<Vec<u8>>,
    context: &mut RenderContext,
) -> (r: Result<Vec<u8>, Error>)
    ensures
        same_frame(old(context)@, final(context)@),
        match r {
            Ok(out) => out@ == Seq::<u8>::empty() && process_let(
                pairs_view(attribute_values@),
                texts_view(children_result@),
                old(context)@,
            ) == Ok::<ContextView, Failure>(final(context)@),
            Err(e) => process_let(
                pairs_view(attribute_values@),
                texts_view(children_result@),
                old(context)@,
            ) == Err::<ContextView, Failure>(e.failure()) && final(context)@ == old(context)@,
        },
{
    let value = let_source_value(attribute_values, children_result, context)?;
    match find_attribute(attribute_values, "name") {
        None => {
            match bind_object_fields(context, parse_json(value.as_slice())) {
                Ok(_) => Ok(Vec::new()),
                Err(e) => Err(e),
            }
        },
        Some(name) => {
            let typed = match find_attribute(attribute_values, "type") {
                None => guess_variable(value.as_slice(), context)?,
                Some(kind) => typed_variable(kind.as_slice(), value.as_slice(), context)?,
            };
            proof {
                lemma_set_frame(context@, name@, typed@);
            }
            context.bind(name.as_slice(), typed);
            Ok(Vec::new())
        },
    }
}

// ---------------------------------------------------------------------------
// The tree
// ---------------------------------------------------------------------------

/// Renders a node; see `render_node`. The scopes that it opens are closed
/// again, also where it fails.
pub fn render_impl<T: TagRenderer>(
    tag_renderer: &T,
    source_buf: &[u8],
    node: &PomlNode,
    context: &mut RenderContext,
    fuel: usize,
) -> (r: Result<Vec<u8>, Error>)
    ensures
        same_frame(old(context)@, final(context)@),
        match r {
            Ok(out) => render_node(tag_renderer, source_buf@, node@, old(context)@, fuel as nat)
                == Ok::<(Seq<u8>, ContextView), Failure>((out@, final(context)@)),
            Err(e) => render_node(tag_renderer, source_buf@, node@, old(context)@, fuel as nat)
                == Err::<(Seq<u8>, ContextView), Failure>(e.failure()),
        },
    decreases fuel, node, 0int, 0int,
{
    match node {
        PomlNode::Tag(tag_node) => render_tag(tag_renderer, source_buf, tag_node, context, fuel),
        PomlNode::Text(content, _) => render_text(content, context),
        PomlNode::Whitespace(_) => Ok(literal(" ")),
    }
}

/// Renders a tag; see `render_tag_node`.
#[verifier::loop_isolation(false)]
pub fn render_tag<T: TagRenderer>(
    tag_renderer: &T,
    source_buf: &[u8],
    tag_node: &PomlTagNode,
    context: &mut RenderContext,
    fuel: usize,
) -> (r: Result<Vec<u8>, Error>)
    ensures
        same_frame(old(context)@, final(context)@),
        match r {
            Ok(out) => render_tag_node(
                tag_renderer,
                source_buf@,
                tag_node@,
                old(context)@,
                fuel as nat,
            ) == Ok::<(Seq<u8>, ContextView), Failure>((out@, final(context)@)),
            Err(e) => render_tag_node(
                tag_renderer,
                source_buf@,
                tag_node@,
                old(context)@,
                fuel as nat,
            ) == Err::<(Seq<u8>, ContextView), Failure>(e.failure()),
        },
    decreases fuel, tag_node, 3int, 0int,
{
    let ghost ctx0 = context@;
    let (attribute_values, for_loop_attribute, if_attribute_present) = resolve_tag_attributes(
        tag_node,
        context,
    )?;
    let for_loop_instruction = match for_loop_attribute {
        None => {
            return process_tag_node_without_for(
                tag_renderer,
                source_buf,
                tag_node,
                &attribute_values,
                context,
                fuel,
            );
        },
        Some(instruction) => instruction,
    };
    if if_attribute_present {
        return refuse("Control flow attributes `if` and `for` on the same node is not supported!");
    }
    let (for_item_name, range) = match split_loop_header(for_loop_instruction) {
        Some(parts) => parts,
        None => {
            return refuse_about("Invalid for-loop attribute value: ", for_loop_instruction);
        },
    };
    let for_range = match context.evaluate_bytes(range)? {
        PomlValue::Array(items) => {
            proof {
                lemma_array_view(items);
            }
            items
        },
        _ => {
            return refuse_about("For loop range is not an array: ", range);
        },
    };
    let ghost attributes = pairs_view(attribute_values@);
    let ghost items = values_view(for_range@);
    proof {
        lemma_push_pop(ctx0);
    }
    context.push_scope();
    let mut answer: Vec<u8> = Vec::new();
    let mut item_idx: usize = 0;
    while item_idx < for_range.len()
        invariant
            item_idx <= for_range.len(),
            items == values_view(for_range@),
            context@.scopes.len() > 0,
            context@.pop() == ctx0,
            render_loop(
                tag_renderer,
                source_buf@,
                tag_node@,
                attributes,
                for_item_name@,
                items,
                0,
                Seq::empty(),
                ctx0.push(),
                fuel as nat,
            ) == render_loop(
                tag_renderer,
                source_buf@,
                tag_node@,
                attributes,
                for_item_name@,
                items,
                item_idx as int,
                answer@,
                context@,
                fuel as nat,
            ),
        decreases for_range.len() - item_idx,
    {
        let ghost before = context@;
        proof {
            lemma_set_frame(before, for_item_name@, items[item_idx as int]);
            lemma_set_frame(
                before.set(for_item_name@, items[item_idx as int]),
                text("loop"),
                loop_value(item_idx as int, items.len() as int),
            );
        }
        context.bind(for_item_name, clone_value(&for_range[item_idx]));
        context.bind("loop".as_bytes(), loop_variable(item_idx, for_range.len()));
        let ghost bound = context@;
        match process_tag_node_without_for(
            tag_renderer,
            source_buf,
            tag_node,
            &attribute_values,
            context,
            fuel,
        ) {
            Ok(item_node_result) => {
                push_bytes(&mut answer, item_node_result.as_slice());
            },
            Err(e) => {
                proof {
                    lemma_frame_pop(bound, context@);
                }
                context.pop_scope();
                return Err(e);
            },
        }
        proof {
            lemma_frame_pop(bound, context@);
        }
        item_idx = item_idx + 1;
    }
    context.pop_scope();
    Ok(answer)
}

/// Renders a tag once `for` is dealt with; see `tag_body`.
#[verifier::loop_isolation(false)]
pub fn process_tag_node_without_for<T: TagRenderer>(
    tag_renderer: &T,
    source_buf: &[u8],
    tag_node: &PomlTagNode,
    attribute_values: &Vec<(Vec<u8>, Vec<u8>)>,
    context: &mut RenderContext,
    fuel: usize,
) -> (r: Result<Vec<u8>, Error>)
    ensures
        same_frame(old(context)@, final(context)@),
        match r {
            Ok(out) => tag_body(
                tag_renderer,
                source_buf@,
                tag_node@,
                pairs_view(attribute_values@),
                old(context)@,
                fuel as nat,
            ) == Ok::<(Seq<u8>, ContextView), Failure>((out@, final(context)@)),
            Err(e) => tag_body(
                tag_renderer,
                source_buf@,
                tag_node@,
                pairs_view(attribute_values@),
                old(context)@,
                fuel as nat,
            ) == Err::<(Seq<u8>, ContextView), Failure>(e.failure()),
        },
    decreases fuel, tag_node, 1int, 0int,
{
    let ghost ctx0 = context@;
    let ghost attributes = pairs_view(attribute_values@);
    match find_attribute(attribute_values.as_slice(), "if") {
        Some(condition) => {
            if is_false_bytes(condition.as_slice()) {
                return Ok(Vec::new());
            }
        },
        None => {},
    }
    let mut children_result: Vec<Vec<u8>> = Vec::new();
    proof {
        assert(texts_view(children_result@) =~= Seq::empty());
    }
    if tag_node.children.len() > 0 {
        proof {
            lemma_push_pop(ctx0);
        }
        context.push_scope();
        let mut i: usize = 0;
        while i < tag_node.children.len()
            invariant
                i <= tag_node.children.len(),
                context@.scopes.len() > 0,
                context@.pop() == ctx0,
                render_children(
                    tag_renderer,
                    source_buf@,
                    tag_node@,
                    0,
                    Seq::empty(),
                    ctx0.push(),
                    fuel as nat,
                ) == render_children(
                    tag_renderer,
                    source_buf@,
                    tag_node@,
                    i as int,
                    texts_view(children_result@),
                    context@,
                    fuel as nat,
                ),
            decreases tag_node.children.len() - i,
        {
            let ghost before = context@;
            let ghost acc = texts_view(children_result@);
            assert(tag_node@.children[i as int] == tag_node.children[i as int]@);
            match render_impl(tag_renderer, source_buf, &tag_node.children[i], context, fuel) {
                Ok(out) => {
                    children_result.push(out);
                    proof {
                        assert(texts_view(children_result@) =~= acc.push(out@));
                    }
                },
                Err(e) => {
                    proof {
                        lemma_frame_pop(before, context@);
                    }
                    context.pop_scope();
                    return Err(e);
                },
            }
            proof {
                lemma_frame_pop(before, context@);
            }
            i = i + 1;
        }
        context.pop_scope();
    }
    if is_text(tag_node.name, "let") {
        process_let_node(attribute_values.as_slice(), &children_result, context)
    } else if is_text(tag_node.name, "include") {
        process_include_node(tag_renderer, tag_node, attribute_values.as_slice(), context, fuel)
    } else {
        tag_renderer.render_tag(tag_node, attribute_values.as_slice(), children_result, source_buf)
    }
}

/// What an `include` renders to: the document that its `src` names,
/// rendered in a copy of the context. `fuel` documents may include one
/// another in depth; at none it is refused.
pub open spec fn include_body<T: TagRenderer>(
    renderer: &T,
    attributes: Seq<(Seq<u8>, Seq<u8>)>,
    ctx: ContextView,
    fuel: nat,
) -> Result<Seq<u8>, Failure>
    decreases fuel, 0int,
{
    match attribute(attributes, text("src")) {
        None => refused(),
        Some(src) => match ctx.file(src) {
            Err(f) => Err(f),
            Ok(content) => if fuel == 0 {
                refused()
            } else {
                match parse_document(content, skip_spaces(content, 0)) {
                    None => Err(Failure::Rejected(ErrorKind::ParserError)),
                    Some(root) => match render_tag_node(
                        renderer,
                        content,
                        root,
                        ctx,
                        (fuel - 1) as nat,
                    ) {
                        Err(f) => Err(f),
                        Ok((out, _)) => Ok(out),
                    },
                }
            },
        },
    }
}

/// Processes the `include` tag `tag_node`; see `include_body`. The context
/// is left as it was: what the included document binds stays in the copy.
pub fn process_include_node<T: TagRenderer>(
    tag_renderer: &T,
    tag_node: &PomlTagNode,
    attribute_values: &[(Vec<u8>, Vec<u8>)],
    context: &mut RenderContext,
    fuel: usize,
) -> (r: Result<Vec<u8>, Error>)
    ensures
        final(context)@ == old(context)@,
        match r {
            Ok(out) => include_body(
                tag_renderer,
                pairs_view(attribute_values@),
                old(context)@,
                fuel as nat,
            ) == Ok::<Seq<u8>, Failure>(out@),
            Err(e) => include_body(
                tag_renderer,
                pairs_view(attribute_values@),
                old(context)@,
                fuel as nat,
            ) == Err::<Seq<u8>, Failure>(e.failure()),
        },
    decreases fuel, tag_node, 0int, 0int,
{
    let src = match find_attribute(attribute_values, "src") {
        Some(src) => src,
        None => {
            return refuse("`src` attribute not found on <include>.");
        },
    };
    let file_content_buf = context.file_content(src.as_slice())?;
    if fuel == 0 {
        return refuse("Documents include one another too deep.");
    }
    let mut new_context = context.clone();
    let mut parser = PomlParser::from_bytes(file_content_buf.as_slice());
    let root = parser.parse_as_node()?;
    render_tag(tag_renderer, file_content_buf.as_slice(), &root, &mut new_context, fuel - 1)
}

/// A document with the context and the tag renderer to render it.
pub struct Renderer<'a, T: TagRenderer> {
    pub parser: PomlParser<'a>,
    pub context: RenderContext,
    pub tag_renderer: T,
}

impl<'a, T: TagRenderer> Renderer<'a, T> {
    /// Parses the document and renders it to bytes; see `render_document`.
    pub fn render_bytes(&mut self) -> (r: Result<Vec<u8>, Error>)
        requires
            old(self).parser.wf(),
        ensures
            final(self).parser.wf(),
            final(self).parser.buf == old(self).parser.buf,
            same_frame(old(self).context@, final(self).context@),
            r is Ok ==> final(self).context@ == old(self).context@,
            match r {
                Ok(out) => render_document(
                    &old(self).tag_renderer,
                    old(self).parser.buf@,
                    old(self).parser.pos as int,
                    old(self).context@,
                ) == Ok::<(Seq<u8>, ContextView), Failure>((out@, final(self).context@)),
                Err(e) => render_document(
                    &old(self).tag_renderer,
                    old(self).parser.buf@,
                    old(self).parser.pos as int,
                    old(self).context@,
                ) == Err::<(Seq<u8>, ContextView), Failure>(e.failure()),
            },
    {
        proof {
            scoping::lemma_document_restores_context(
                &self.tag_renderer,
                self.parser.buf@,
                self.parser.pos as int,
                self.context@,
            );
        }
        let node = self.parser.parse_as_node()?;
        render_tag(
            &self.tag_renderer,
            self.parser.buf,
            &node,
            &mut self.context,
            MAX_INCLUDE_DEPTH,
        )
    }

    /// Parses the document and renders it to text. Output that is no valid
    /// UTF-8 is refused.
    pub fn render(&mut self) -> (r: Result<String, Error>)
        requires
            old(self).parser.wf(),
        ensures
            final(self).parser.wf(),
            same_frame(old(self).context@, final(self).context@),
            r is Ok ==> final(self).context@ == old(self).context@,
            match r {
                Ok(out) => render_document(
                    &old(self).tag_renderer,
                    old(self).parser.buf@,
                    old(self).parser.pos as int,
                    old(self).context@,
                ) == Ok::<(Seq<u8>, ContextView), Failure>(
                    (vstd::utf8::encode_utf8(out@), final(self).context@),
                ),
                Err(e) => match render_document(
                    &old(self).tag_renderer,
                    old(self).parser.buf@,
                    old(self).parser.pos as int,
                    old(self).context@,
                ) {
                    Ok((bytes, _)) => !vstd::utf8::valid_utf8(bytes) && e.rejects(
                        ErrorKind::RendererError,
                    ),
                    Err(f) => f == e.failure(),
                },
            },
    {
        let bytes = self.render_bytes()?;
        match checked_text(bytes) {
            Some(out) => Ok(out),
            None => refuse("The output is not valid UTF-8."),
        }
    }
}

} // verus!
