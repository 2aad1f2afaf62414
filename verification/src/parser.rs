//! The markup tokenizer and the tree builder.
//!
//! The tokenizer cuts the document into elements: tags, runs of text and
//! runs of whitespace. The tree builder folds the elements into one tag tree
//! with a stack of open tags.

use vstd::prelude::*;
use vstd::slice::slice_subrange;
use crate::error::{Error, ErrorKind};
use crate::node::{tag_view, NodeView, PomlNode, PomlNodePosition, PomlTagNode, TagView};
use crate::text::{
    ascii_alnum, ascii_space, is_ascii_alnum, is_ascii_space, is_text, push_bytes, push_decimal,
    push_text, same_bytes, text,
};

verus! {

#[derive(Debug, PartialEq, Eq, Clone, Copy, Structural)]
pub enum PomlElementKind {
    Tag,
    Text,
    Whitespace,
}

/// A lexical unit of the document: its kind and its byte span.
#[derive(Debug, PartialEq, Eq, Clone, Copy, Structural)]
pub struct PomlElement {
    pub kind: PomlElementKind,
    pub start_pos: usize,
    pub end_pos: usize,
}

/// A cursor over a document, with the offsets of its line ends.
#[derive(Debug)]
pub struct PomlParser<'a> {
    pub buf: &'a [u8],
    pub pos: usize,
    pub line_end_pos: Vec<usize>,
}

// ---------------------------------------------------------------------------
// The model of the tokenizer
// ---------------------------------------------------------------------------

/// A byte of a tag name or an attribute name.
pub open spec fn is_key_byte(b: u8) -> bool {
    is_ascii_alnum(b) || b == '-' as u8 || b == '_' as u8
}

/// The first position at or after `pos` that holds no ASCII whitespace.
pub open spec fn skip_spaces(buf: Seq<u8>, pos: int) -> int
    decreases buf.len() - pos,
{
    if 0 <= pos < buf.len() && is_ascii_space(buf[pos]) {
        skip_spaces(buf, pos + 1)
    } else {
        pos
    }
}

/// The first position at or after `pos` that holds no key byte.
pub open spec fn key_end(buf: Seq<u8>, pos: int) -> int
    decreases buf.len() - pos,
{
    if 0 <= pos < buf.len() && is_key_byte(buf[pos]) {
        key_end(buf, pos + 1)
    } else {
        pos
    }
}

/// The position after the next `>` at or after `pos` that stands outside
/// double quotes. Inside quotes a backslash hides the byte after it.
pub open spec fn seek_gt(buf: Seq<u8>, pos: int, in_string: bool) -> Option<int>
    decreases buf.len() - pos,
{
    if !(0 <= pos < buf.len()) {
        None
    } else if buf[pos] == '>' as u8 && !in_string {
        Some(pos + 1)
    } else if buf[pos] == '"' as u8 {
        seek_gt(buf, pos + 1, !in_string)
    } else if buf[pos] == '\\' as u8 && in_string {
        if pos + 1 < buf.len() {
            seek_gt(buf, pos + 2, in_string)
        } else {
            None
        }
    } else {
        seek_gt(buf, pos + 1, in_string)
    }
}

/// The first position at or after `pos` that holds `<`, a carriage return or
/// a line feed.
pub open spec fn text_end(buf: Seq<u8>, pos: int) -> int
    decreases buf.len() - pos,
{
    if 0 <= pos < buf.len() && !(buf[pos] == '<' as u8 || buf[pos] == '\r' as u8 || buf[pos]
        == '\n' as u8) {
        text_end(buf, pos + 1)
    } else {
        pos
    }
}

/// The element that starts at `pos`, a position inside the document; `None`
/// where a tag opens and never ends.
pub open spec fn element_at(buf: Seq<u8>, pos: int) -> Option<PomlElement> {
    if is_ascii_space(buf[pos]) {
        Some(
            PomlElement {
                kind: PomlElementKind::Whitespace,
                start_pos: pos as usize,
                end_pos: skip_spaces(buf, pos) as usize,
            },
        )
    } else if buf[pos] == '<' as u8 {
        match seek_gt(buf, pos + 1, false) {
            Some(end) => Some(
                PomlElement {
                    kind: PomlElementKind::Tag,
                    start_pos: pos as usize,
                    end_pos: end as usize,
                },
            ),
            None => None,
        }
    } else {
        Some(
            PomlElement {
                kind: PomlElementKind::Text,
                start_pos: pos as usize,
                end_pos: text_end(buf, pos + 1) as usize,
            },
        )
    }
}

/// `acc` followed by the elements of the document from `pos` on; `None`
/// where a tag never ends.
pub open spec fn elements_from(buf: Seq<u8>, pos: int, acc: Seq<PomlElement>) -> Option<
    Seq<PomlElement>,
>
    decreases buf.len() - pos,
{
    if !(0 <= pos < buf.len()) {
        Some(acc)
    } else {
        match element_at(buf, pos) {
            None => None,
            Some(e) => if pos < e.end_pos <= buf.len() {
                elements_from(buf, e.end_pos as int, acc.push(e))
            } else {
                None
            },
        }
    }
}

/// An element lies inside the document and is not empty; a tag runs from a
/// `<` to a `>`.
pub open spec fn element_ok(buf: Seq<u8>, e: PomlElement) -> bool {
    &&& e.start_pos < e.end_pos <= buf.len()
    &&& e.kind == PomlElementKind::Tag ==> e.end_pos - e.start_pos >= 2 && buf[e.start_pos as int]
        == '<' as u8 && buf[e.end_pos - 1] == '>' as u8
}

/// The offsets of the line feeds among the first `n` bytes, in order.
pub open spec fn newline_offsets(buf: Seq<u8>, n: int) -> Seq<usize>
    decreases n,
{
    if n <= 0 {
        Seq::empty()
    } else if buf[n - 1] == '\n' as u8 {
        newline_offsets(buf, n - 1).push((n - 1) as usize)
    } else {
        newline_offsets(buf, n - 1)
    }
}

/// The offsets at which the lines of the document end: every line feed, and
/// the end of the document where no line feed closes it.
pub open spec fn line_ends(buf: Seq<u8>) -> Seq<usize> {
    if buf.len() == 0 || buf[buf.len() - 1] != '\n' as u8 {
        newline_offsets(buf, buf.len() as int).push(buf.len() as usize)
    } else {
        newline_offsets(buf, buf.len() as int)
    }
}

/// The line of a position: the index of the first line end at or after it.
pub open spec fn line_of(ends: Seq<usize>, pos: int, line: int) -> bool {
    &&& 0 <= line < ends.len()
    &&& ends[line] >= pos
    &&& line > 0 ==> ends[line - 1] < pos
}

// ---------------------------------------------------------------------------
// The model of the tree builder
// ---------------------------------------------------------------------------

/// The position of the quote that closes a literal, scanning from `pos`, a
/// position inside the literal; a position at or past the end of the document
/// where none closes it. A backslash hides the byte after it.
pub open spec fn literal_end(buf: Seq<u8>, pos: int) -> int
    decreases buf.len() - pos,
{
    if !(0 <= pos < buf.len()) {
        pos
    } else if buf[pos] == '\\' as u8 {
        if pos + 1 < buf.len() {
            literal_end(buf, pos + 2)
        } else {
            buf.len() as int
        }
    } else if buf[pos] == '"' as u8 {
        pos
    } else {
        literal_end(buf, pos + 1)
    }
}

/// The quoted literal that opens at `pos`: the literal with its quotes, and
/// the position after it. `None` where `pos` holds no quote or the literal
/// never closes.
pub open spec fn literal_at(buf: Seq<u8>, pos: int) -> Option<(Seq<u8>, int)> {
    if !(0 <= pos < buf.len()) || buf[pos] != '"' as u8 {
        None
    } else {
        let end = literal_end(buf, pos + 1);
        if end < buf.len() {
            Some((buf.subrange(pos, end + 1), end + 1))
        } else {
            None
        }
    }
}

/// Whether a key is among the attributes read so far.
pub open spec fn has_key(attributes: Seq<(Seq<u8>, Seq<u8>)>, key: Seq<u8>) -> bool {
    exists|k: int| 0 <= k < attributes.len() && (#[trigger] attributes[k]).0 == key
}

/// `acc` followed by the attributes written from `pos` on: `name = "value"`
/// triples with optional whitespace around each part, up to the first byte
/// that starts no attribute name. `None` where a name occurs twice, `=` or
/// the opening quote is missing, a literal never closes, or the document
/// ends first.
pub open spec fn attributes_from(buf: Seq<u8>, pos: int, acc: Seq<(Seq<u8>, Seq<u8>)>) -> Option<
    Seq<(Seq<u8>, Seq<u8>)>,
>
    decreases buf.len() - pos,
{
    let start = skip_spaces(buf, pos);
    if !(0 <= start < buf.len()) {
        None
    } else if !is_ascii_alnum(buf[start]) {
        Some(acc)
    } else {
        let name_end = key_end(buf, start);
        let name = buf.subrange(start, name_end);
        let eq_pos = skip_spaces(buf, name_end);
        if has_key(acc, name) {
            None
        } else if !(eq_pos < buf.len()) || buf[eq_pos] != '=' as u8 {
            None
        } else {
            let quote_pos = skip_spaces(buf, eq_pos + 1);
            match literal_at(buf, quote_pos) {
                None => None,
                Some((value, next)) => if next > pos {
                    attributes_from(buf, next, acc.push((name, value)))
                } else {
                    None
                },
            }
        }
    }
}

/// The tag that a tag element writes: its name, its attributes, no children
/// yet, and the element's span.
pub open spec fn tag_at(buf: Seq<u8>, e: PomlElement) -> Option<TagView> {
    let name_end = key_end(buf, e.start_pos + 1);
    match attributes_from(buf, name_end, Seq::empty()) {
        None => None,
        Some(attributes) => Some(
            TagView {
                name: buf.subrange(e.start_pos + 1, name_end),
                attributes,
                children: Seq::empty(),
                original_pos: PomlNodePosition { start: e.start_pos, end: e.end_pos },
            },
        ),
    }
}

/// A tag element that ends in `/>`.
pub open spec fn is_self_close(buf: Seq<u8>, e: PomlElement) -> bool {
    e.kind == PomlElementKind::Tag && buf[e.end_pos - 2] == '/' as u8
}

/// A tag element that begins with `</`.
pub open spec fn is_close(buf: Seq<u8>, e: PomlElement) -> bool {
    e.kind == PomlElementKind::Tag && buf[e.start_pos + 1] == '/' as u8
}

/// The root that is supplied where the document does not open with one.
pub open spec fn implicit_root(start: usize, end: usize) -> TagView {
    TagView {
        name: text("poml"),
        attributes: Seq::empty(),
        children: Seq::empty(),
        original_pos: PomlNodePosition { start, end },
    }
}

/// The stack of open tags with one more child under its top.
pub open spec fn push_child(stack: Seq<TagView>, child: NodeView) -> Seq<TagView> {
    stack.drop_last().push(stack.last().with_child(child))
}

/// What one element does to the stack of open tags.
pub ghost enum BuildStep {
    /// The document goes on with this stack; the flag tells whether the root
    /// was supplied.
    Open(Seq<TagView>, bool),
    /// The root closed: the document is complete.
    Done(TagView),
    /// The element is rejected.
    Fail,
}

pub open spec fn build_step(buf: Seq<u8>, stack: Seq<TagView>, added: bool, e: PomlElement) -> BuildStep {
    let span = PomlNodePosition { start: e.start_pos, end: e.end_pos };
    match e.kind {
        PomlElementKind::Text => if stack.len() == 0 {
            BuildStep::Fail
        } else {
            BuildStep::Open(
                push_child(
                    stack,
                    NodeView::Text(buf.subrange(e.start_pos as int, e.end_pos as int), span),
                ),
                added,
            )
        },
        PomlElementKind::Whitespace => if stack.len() == 0 {
            BuildStep::Fail
        } else {
            BuildStep::Open(push_child(stack, NodeView::Whitespace(span)), added)
        },
        PomlElementKind::Tag => if is_self_close(buf, e) {
            match tag_at(buf, e) {
                None => BuildStep::Fail,
                Some(tag) => if stack.len() == 0 {
                    if tag.name != text("poml") {
                        BuildStep::Open(
                            seq![implicit_root(e.start_pos, e.end_pos).with_child(NodeView::Tag(tag))],
                            true,
                        )
                    } else {
                        BuildStep::Fail
                    }
                } else {
                    BuildStep::Open(push_child(stack, NodeView::Tag(tag)), added)
                },
            }
        } else if is_close(buf, e) {
            if stack.len() == 0 {
                BuildStep::Fail
            } else {
                let top = stack.last();
                let name = buf.subrange(e.start_pos + 2, key_end(buf, e.start_pos + 2));
                if name != top.name {
                    BuildStep::Fail
                } else {
                    let closed = TagView {
                        original_pos: PomlNodePosition {
                            start: top.original_pos.start,
                            end: e.end_pos,
                        },
                        ..top
                    };
                    if stack.len() == 1 {
                        BuildStep::Done(closed)
                    } else {
                        BuildStep::Open(push_child(stack.drop_last(), NodeView::Tag(closed)), added)
                    }
                }
            }
        } else {
            match tag_at(buf, e) {
                None => BuildStep::Fail,
                Some(tag) => if stack.len() == 0 && tag.name != text("poml") {
                    BuildStep::Open(seq![implicit_root(0, buf.len() as usize), tag], true)
                } else {
                    BuildStep::Open(stack.push(tag), added)
                },
            }
        },
    }
}

/// The tree that the elements from index `i` on build, starting from a stack
/// of open tags. The document is complete when the root closes; what follows
/// it is not read. At the end of the elements only a supplied root may still
/// be open, and it closes there.
pub open spec fn build_from(
    buf: Seq<u8>,
    elements: Seq<PomlElement>,
    i: int,
    stack: Seq<TagView>,
    added: bool,
) -> Option<TagView>
    decreases elements.len() - i,
{
    if !(0 <= i < elements.len()) {
        if stack.len() == 1 && added {
            Some(stack[0])
        } else {
            None
        }
    } else {
        match build_step(buf, stack, added, elements[i]) {
            BuildStep::Fail => None,
            BuildStep::Done(root) => Some(root),
            BuildStep::Open(next, next_added) => build_from(buf, elements, i + 1, next, next_added),
        }
    }
}

/// The tree of the document that starts at `pos`, or `None` where it is
/// malformed.
pub open spec fn parse_document(buf: Seq<u8>, pos: int) -> Option<TagView> {
    match elements_from(buf, pos, Seq::empty()) {
        None => None,
        Some(elements) => build_from(buf, elements, 0, Seq::empty(), false),
    }
}

/// The values of a stack of open tags.
pub open spec fn stack_view(stack: Seq<PomlTagNode>) -> Seq<TagView> {
    Seq::new(stack.len(), |i: int| tag_view(&stack[i]))
}

/// The values of a list of attributes.
pub open spec fn attributes_view(attributes: Seq<(&[u8], &[u8])>) -> Seq<(Seq<u8>, Seq<u8>)> {
    Seq::new(attributes.len(), |i: int| (attributes[i].0@, attributes[i].1@))
}

// ---------------------------------------------------------------------------
// Facts about the model
// ---------------------------------------------------------------------------

pub proof fn lemma_skip_spaces_bounds(buf: Seq<u8>, pos: int)
    requires
        0 <= pos <= buf.len(),
    ensures
        pos <= skip_spaces(buf, pos) <= buf.len(),
        is_ascii_space(buf[pos]) && pos < buf.len() ==> pos < skip_spaces(buf, pos),
    decreases buf.len() - pos,
{
    if pos < buf.len() && is_ascii_space(buf[pos]) {
        lemma_skip_spaces_bounds(buf, pos + 1);
    }
}

pub proof fn lemma_key_end_bounds(buf: Seq<u8>, pos: int)
    requires
        0 <= pos <= buf.len(),
    ensures
        pos <= key_end(buf, pos) <= buf.len(),
        pos < buf.len() && is_key_byte(buf[pos]) ==> pos < key_end(buf, pos),
    decreases buf.len() - pos,
{
    if pos < buf.len() && is_key_byte(buf[pos]) {
        lemma_key_end_bounds(buf, pos + 1);
    }
}

pub proof fn lemma_text_end_bounds(buf: Seq<u8>, pos: int)
    requires
        0 <= pos <= buf.len(),
    ensures
        pos <= text_end(buf, pos) <= buf.len(),
    decreases buf.len() - pos,
{
    if pos < buf.len() && !(buf[pos] == '<' as u8 || buf[pos] == '\r' as u8 || buf[pos]
        == '\n' as u8) {
        lemma_text_end_bounds(buf, pos + 1);
    }
}

pub proof fn lemma_seek_gt_bounds(buf: Seq<u8>, pos: int, in_string: bool)
    requires
        0 <= pos,
    ensures
        seek_gt(buf, pos, in_string) matches Some(end) ==> pos < end <= buf.len() && buf[end - 1]
            == '>' as u8,
    decreases buf.len() - pos,
{
    if pos < buf.len() {
        if buf[pos] == '>' as u8 && !in_string {
        } else if buf[pos] == '"' as u8 {
            lemma_seek_gt_bounds(buf, pos + 1, !in_string);
        } else if buf[pos] == '\\' as u8 && in_string {
            if pos + 1 < buf.len() {
                lemma_seek_gt_bounds(buf, pos + 2, in_string);
            }
        } else {
            lemma_seek_gt_bounds(buf, pos + 1, in_string);
        }
    }
}

/// Every element of a document is well formed and ends after it starts.
pub proof fn lemma_element_at_ok(buf: Seq<u8>, pos: int)
    requires
        0 <= pos < buf.len(),
        buf.len() <= usize::MAX,
    ensures
        element_at(buf, pos) matches Some(e) ==> element_ok(buf, e) && e.start_pos == pos,
{
    lemma_skip_spaces_bounds(buf, pos);
    lemma_seek_gt_bounds(buf, pos + 1, false);
    lemma_text_end_bounds(buf, pos + 1);
}

pub proof fn lemma_elements_from_ok(buf: Seq<u8>, pos: int, acc: Seq<PomlElement>)
    requires
        0 <= pos,
        buf.len() <= usize::MAX,
        forall|k: int| 0 <= k < acc.len() ==> element_ok(buf, #[trigger] acc[k]),
    ensures
        elements_from(buf, pos, acc) matches Some(es) ==> forall|k: int|
            0 <= k < es.len() ==> element_ok(buf, #[trigger] es[k]),
    decreases buf.len() - pos,
{
    if pos < buf.len() {
        lemma_element_at_ok(buf, pos);
        match element_at(buf, pos) {
            None => {},
            Some(e) => {
                if pos < e.end_pos <= buf.len() {
                    let next = acc.push(e);
                    assert forall|k: int| 0 <= k < next.len() implies element_ok(
                        buf,
                        #[trigger] next[k],
                    ) by {
                        if k < acc.len() {
                            assert(next[k] == acc[k]);
                        }
                    }
                    lemma_elements_from_ok(buf, e.end_pos as int, next);
                }
            },
        }
    }
}

/// The elements lie one after the other: each starts where the one before
/// it ends.
pub open spec fn elements_chained(elements: Seq<PomlElement>, from: int, to: int) -> bool {
    &&& elements.len() == 0 ==> from == to
    &&& elements.len() > 0 ==> elements[0].start_pos == from && elements.last().end_pos == to
    &&& forall|j: int, k: int|
        0 <= j < k < elements.len() && k == j + 1 ==> (#[trigger] elements[j]).end_pos
            == (#[trigger] elements[k]).start_pos
}

/// The elements of a document cover it from the cursor to its end, without
/// a gap and without an overlap.
pub proof fn lemma_elements_cover(buf: Seq<u8>, start: int, pos: int, acc: Seq<PomlElement>)
    requires
        0 <= start <= pos <= buf.len() <= usize::MAX,
        elements_chained(acc, start, pos),
    ensures
        elements_from(buf, pos, acc) matches Some(es) ==> elements_chained(
            es,
            start,
            buf.len() as int,
        ),
    decreases buf.len() - pos,
{
    if pos < buf.len() {
        lemma_element_at_ok(buf, pos);
        match element_at(buf, pos) {
            None => {},
            Some(e) => {
                if pos < e.end_pos <= buf.len() {
                    let next = acc.push(e);
                    assert forall|j: int, k: int|
                        0 <= j < k < next.len() && k == j + 1 implies (#[trigger] next[j]).end_pos
                        == (#[trigger] next[k]).start_pos by {
                        if k < acc.len() {
                            assert(next[j] == acc[j]);
                            assert(next[k] == acc[k]);
                        } else {
                            assert(next[j] == acc.last());
                        }
                    }
                    if acc.len() > 0 {
                        assert(next[0] == acc[0]);
                    }
                    lemma_elements_cover(buf, start, e.end_pos as int, next);
                }
            },
        }
    }
}

pub proof fn lemma_newline_offsets(buf: Seq<u8>, n: int)
    requires
        0 <= n <= buf.len() <= usize::MAX,
    ensures
        forall|k: int|
            0 <= k < newline_offsets(buf, n).len() ==> (#[trigger] newline_offsets(buf, n)[k]) < n
                && buf[newline_offsets(buf, n)[k] as int] == '\n' as u8,
        forall|j: int, k: int|
            0 <= j < k < newline_offsets(buf, n).len() ==> newline_offsets(buf, n)[j]
                < newline_offsets(buf, n)[k],
        forall|p: int|
            0 <= p < n && buf[p] == '\n' as u8 ==> exists|k: int|
                0 <= k < newline_offsets(buf, n).len() && newline_offsets(buf, n)[k] == p,
    decreases n,
{
    if n > 0 {
        lemma_newline_offsets(buf, n - 1);
        let prev = newline_offsets(buf, n - 1);
        let cur = newline_offsets(buf, n);
        if buf[n - 1] == '\n' as u8 {
            assert(cur[cur.len() - 1] == (n - 1) as usize);
            assert forall|p: int| 0 <= p < n && buf[p] == '\n' as u8 implies exists|k: int|
                0 <= k < cur.len() && cur[k] == p by {
                if p < n - 1 {
                    let k = choose|k: int| 0 <= k < prev.len() && prev[k] == p;
                    assert(cur[k] == p);
                } else {
                    assert(cur[cur.len() - 1] == p);
                }
            }
        }
    }
}

/// The line ends increase strictly, and the last one is at or after every
/// position inside the document.
pub proof fn lemma_line_ends(buf: Seq<u8>)
    requires
        buf.len() <= usize::MAX,
    ensures
        line_ends(buf).len() > 0,
        forall|j: int, k: int|
            0 <= j < k < line_ends(buf).len() ==> line_ends(buf)[j] < line_ends(buf)[k],
        line_ends(buf).last() + 1 >= buf.len(),
        forall|k: int| 0 <= k < line_ends(buf).len() ==> (#[trigger] line_ends(buf)[k]) <= buf.len(),
{
    lemma_newline_offsets(buf, buf.len() as int);
    let inner = newline_offsets(buf, buf.len() as int);
    if buf.len() == 0 || buf[buf.len() - 1] != '\n' as u8 {
    } else {
        let p = buf.len() - 1;
        let k = choose|k: int| 0 <= k < inner.len() && inner[k] == p;
        if k < inner.len() - 1 {
            assert(inner[k] < inner[inner.len() - 1]);
        }
    }
}

// ---------------------------------------------------------------------------
// The parser
// ---------------------------------------------------------------------------

impl<'a> PomlParser<'a> {
    /// The cursor lies inside the document or at its end, and the line ends
    /// are those of the document.
    pub open spec fn wf(&self) -> bool {
        &&& self.pos <= self.buf@.len() <= usize::MAX
        &&& self.line_end_pos@ == line_ends(self.buf@)
    }

    /// A parser at the first byte of the document that is no whitespace.
    pub fn from_poml_str(s: &'a str) -> (r: PomlParser<'a>)
        ensures
            r.wf(),
            r.buf@ == text(s),
            r.pos == skip_spaces(r.buf@, 0),
    {
        PomlParser::from_bytes(s.as_bytes())
    }

    /// A parser at the first byte of the document that is no whitespace.
    pub fn from_bytes(buf: &'a [u8]) -> (r: PomlParser<'a>)
        ensures
            r.wf(),
            r.buf == buf,
            r.pos == skip_spaces(r.buf@, 0),
    {
        let mut line_end_pos: Vec<usize> = Vec::new();
        let mut i: usize = 0;
        while i < buf.len()
            invariant
                i <= buf.len(),
                line_end_pos@ == newline_offsets(buf@, i as int),
            decreases buf.len() - i,
        {
            if buf[i] == '\n' as u8 {
                line_end_pos.push(i);
            }
            i = i + 1;
        }
        if buf.len() == 0 || buf[buf.len() - 1] != '\n' as u8 {
            line_end_pos.push(buf.len());
        }
        let mut parser = PomlParser { buf, pos: 0, line_end_pos };
        let first = parser.consume_space(0);
        proof {
            lemma_skip_spaces_bounds(buf@, 0);
        }
        parser.pos = first;
        parser
    }

    /// Parses the document from the cursor on into its tree.
    ///
    /// The tree is the one that `parse_document` defines; every rejected
    /// document gives a `ParserError`.
    #[verifier::loop_isolation(false)]
    pub fn parse_as_node(&mut self) -> (r: Result<PomlTagNode<'a>, Error>)
        requires
            old(self).wf(),
        ensures
            final(self).wf(),
            final(self).buf == old(self).buf,
            elements_from(old(self).buf@, old(self).pos as int, Seq::empty()) is Some
                ==> final(self).pos == old(self).buf@.len(),
            match r {
                Ok(root) => parse_document(old(self).buf@, old(self).pos as int) == Some(root@),
                Err(e) => parse_document(old(self).buf@, old(self).pos as int) is None && e.rejects(ErrorKind::ParserError),
            },
    {
        let ghost start = self.pos as int;
        let elements = self.parse_as_elements()?;
        let buf = self.buf;
        proof {
            lemma_elements_from_ok(buf@, start, Seq::empty());
        }
        let mut node_stack: Vec<PomlTagNode<'a>> = Vec::new();
        let mut added_poml_root = false;
        let mut i: usize = 0;
        proof {
            assert(stack_view(node_stack@) =~= Seq::empty());
        }
        while i < elements.len()
            invariant
                i <= elements.len(),
                buf == self.buf,
                self.buf == old(self).buf,
                self.wf(),
                forall|k: int| 0 <= k < elements.len() ==> element_ok(buf@, #[trigger] elements@[k]),
                build_from(buf@, elements@, 0, Seq::empty(), false) == build_from(
                    buf@,
                    elements@,
                    i as int,
                    stack_view(node_stack@),
                    added_poml_root,
                ),
            decreases elements.len() - i,
        {
            let element = elements[i];
            let ghost stack0 = stack_view(node_stack@);
            assert(element_ok(buf@, element));
            match element.kind {
                PomlElementKind::Text => {
                    match node_stack.pop() {
                        None => {
                            return Err(self.error_at("Text appears without a node", element.start_pos));
                        },
                        Some(mut last_node) => {
                            let content = slice_subrange(buf, element.start_pos, element.end_pos);
                            last_node.add_child(
                                PomlNode::Text(
                                    content,
                                    PomlNodePosition {
                                        start: element.start_pos,
                                        end: element.end_pos,
                                    },
                                ),
                            );
                            node_stack.push(last_node);
                            proof {
                                assert(stack_view(node_stack@) =~= push_child(
                                    stack0,
                                    NodeView::Text(
                                        buf@.subrange(
                                            element.start_pos as int,
                                            element.end_pos as int,
                                        ),
                                        PomlNodePosition {
                                            start: element.start_pos,
                                            end: element.end_pos,
                                        },
                                    ),
                                ));
                            }
                        },
                    }
                },
                PomlElementKind::Whitespace => {
                    match node_stack.pop() {
                        None => {
                            return Err(
                                self.error_at("Whitespace appears without a node", element.start_pos),
                            );
                        },
                        Some(mut last_node) => {
                            last_node.add_child(
                                PomlNode::Whitespace(
                                    PomlNodePosition {
                                        start: element.start_pos,
                                        end: element.end_pos,
                                    },
                                ),
                            );
                            node_stack.push(last_node);
                            proof {
                                assert(stack_view(node_stack@) =~= push_child(
                                    stack0,
                                    NodeView::Whitespace(
                                        PomlNodePosition {
                                            start: element.start_pos,
                                            end: element.end_pos,
                                        },
                                    ),
                                ));
                            }
                        },
                    }
                },
                PomlElementKind::Tag => {
                    if self.is_self_close_tag_element(&element) {
                        let tag = match self.create_tag_from_element(&element) {
                            Ok(t) => t,
                            Err(e) => {
                                return Err(e);
                            },
                        };
                        if node_stack.len() == 0 {
                            if !is_text(tag.name, "poml") {
                                let mut root = PomlTagNode {
                                    name: "poml".as_bytes(),
                                    attributes: Vec::new(),
                                    children: Vec::new(),
                                    original_pos: PomlNodePosition {
                                        start: element.start_pos,
                                        end: element.end_pos,
                                    },
                                };
                                proof {
                                    assert(root@.attributes =~= Seq::empty());
                                    assert(root@.children =~= Seq::empty());
                                    assert(root@ == implicit_root(element.start_pos, element.end_pos));
                                }
                                root.add_child(PomlNode::Tag(tag));
                                node_stack.push(root);
                                added_poml_root = true;
                                proof {
                                    assert(stack_view(node_stack@) =~= seq![
                                        implicit_root(
                                            element.start_pos,
                                            element.end_pos,
                                        ).with_child(NodeView::Tag(tag@)),
                                    ]);
                                }
                            } else {
                                return Err(
                                    Error::fixed(
                                        ErrorKind::ParserError,
                                        "<poml> tag should not close itself.",
                                    ),
                                );
                            }
                        } else {
                            let mut last_node = node_stack.pop().unwrap();
                            last_node.add_child(PomlNode::Tag(tag));
                            node_stack.push(last_node);
                            proof {
                                assert(stack_view(node_stack@) =~= push_child(
                                    stack0,
                                    NodeView::Tag(tag@),
                                ));
                            }
                        }
                    } else if self.is_close_tag_element(&element) {
                        let mut node_to_close = match node_stack.pop() {
                            Some(l) => l,
                            None => {
                                return Err(
                                    self.error_at(
                                        "Close tag appears without an open tag",
                                        element.start_pos,
                                    ),
                                );
                            },
                        };
                        let (tag_name, _) = self.consume_key_str(element.start_pos + 2);
                        if !same_bytes(tag_name, node_to_close.name) {
                            return Err(
                                self.mismatch_error(tag_name, element.start_pos, node_to_close.name),
                            );
                        }
                        let ghost top = node_to_close@;
                        node_to_close.original_pos.end = element.end_pos;
                        proof {
                            assert(node_to_close@.attributes =~= top.attributes);
                            assert(node_to_close@.children =~= top.children);
                        }
                        if node_stack.len() == 0 {
                            return Ok(node_to_close);
                        } else {
                            let ghost rest = stack_view(node_stack@);
                            let mut last_node = node_stack.pop().unwrap();
                            last_node.add_child(PomlNode::Tag(node_to_close));
                            node_stack.push(last_node);
                            proof {
                                assert(rest =~= stack0.drop_last());
                                assert(stack_view(node_stack@) =~= push_child(
                                    stack0.drop_last(),
                                    NodeView::Tag(node_to_close@),
                                ));
                            }
                        }
                    } else {
                        let tag = match self.create_tag_from_element(&element) {
                            Ok(t) => t,
                            Err(e) => {
                                return Err(e);
                            },
                        };
                        if node_stack.len() == 0 && !is_text(tag.name, "poml") {
                            let root = PomlTagNode {
                                name: "poml".as_bytes(),
                                attributes: Vec::new(),
                                children: Vec::new(),
                                original_pos: PomlNodePosition { start: 0, end: buf.len() },
                            };
                            proof {
                                assert(root@.attributes =~= Seq::empty());
                                assert(root@.children =~= Seq::empty());
                            }
                            node_stack.push(root);
                            node_stack.push(tag);
                            added_poml_root = true;
                            proof {
                                assert(stack_view(node_stack@) =~= seq![
                                    implicit_root(0, buf.len() as usize),
                                    tag@,
                                ]);
                            }
                        } else {
                            node_stack.push(tag);
                            proof {
                                assert(stack_view(node_stack@) =~= stack0.push(tag@));
                            }
                        }
                    }
                },
            }
            i = i + 1;
        }
        if node_stack.len() == 1 && added_poml_root {
            Ok(node_stack.pop().unwrap())
        } else {
            Err(Error::fixed(ErrorKind::ParserError, "Document has not finished at the end"))
        }
    }

    /// Reads the tag that a tag element writes: its name and its attributes.
    #[verifier::loop_isolation(false)]
    pub fn create_tag_from_element(&self, element: &PomlElement) -> (r: Result<
        PomlTagNode<'a>,
        Error,
    >)
        requires
            self.wf(),
            element.start_pos < self.buf@.len(),
        ensures
            match r {
                Ok(tag) => tag_at(self.buf@, *element) == Some(tag@),
                Err(e) => tag_at(self.buf@, *element) is None && e.rejects(ErrorKind::ParserError),
            },
    {
        let buf = self.buf;
        let (tag_name, name_end) = self.consume_key_str(element.start_pos + 1);
        let mut attributes: Vec<(&'a [u8], &'a [u8])> = Vec::new();
        let mut pos = name_end;
        proof {
            lemma_key_end_bounds(buf@, element.start_pos + 1);
            assert(attributes_view(attributes@) =~= Seq::empty());
        }
        loop
            invariant
                buf == self.buf,
                self.wf(),
                pos <= buf@.len(),
                attributes_from(buf@, name_end as int, Seq::empty()) == attributes_from(
                    buf@,
                    pos as int,
                    attributes_view(attributes@),
                ),
            decreases buf@.len() - pos,
        {
            let ghost acc = attributes_view(attributes@);
            let start = self.consume_space(pos);
            proof {
                lemma_skip_spaces_bounds(buf@, pos as int);
            }
            if start >= buf.len() {
                return Err(self.error_at("Tag is not complete", start));
            }
            if !ascii_alnum(buf[start]) {
                break;
            }
            let (attribute_name, next_pos) = self.consume_key_str(start);
            proof {
                lemma_key_end_bounds(buf@, start as int);
            }
            let mut duplicate = false;
            let mut k: usize = 0;
            while k < attributes.len()
                invariant
                    k <= attributes.len(),
                    acc == attributes_view(attributes@),
                    duplicate == exists|j: int|
                        0 <= j < k && (#[trigger] acc[j]).0 == attribute_name@,
                decreases attributes.len() - k,
            {
                if same_bytes(attributes[k].0, attribute_name) {
                    duplicate = true;
                    proof {
                        assert(acc[k as int].0 == attribute_name@);
                    }
                }
                k = k + 1;
            }
            if duplicate {
                return Err(self.error_at("Duplicate attribute key", start));
            }
            let eq_pos = self.consume_space(next_pos);
            proof {
                lemma_skip_spaces_bounds(buf@, next_pos as int);
            }
            if eq_pos >= buf.len() || buf[eq_pos] != '=' as u8 {
                return Err(
                    self.error_at("Expect '=' for attribute declaration, but not found", eq_pos),
                );
            }
            let quote_pos = self.consume_space(eq_pos + 1);
            proof {
                lemma_skip_spaces_bounds(buf@, eq_pos as int + 1);
            }
            let (attribute_value, after) = match self.consume_value_str_literal(quote_pos) {
                Ok(v) => v,
                Err(e) => {
                    return Err(e);
                },
            };
            attributes.push((attribute_name, attribute_value));
            proof {
                assert(attributes_view(attributes@) =~= acc.push(
                    (attribute_name@, attribute_value@),
                ));
            }
            pos = after;
        }
        let tag = PomlTagNode {
            name: tag_name,
            attributes,
            children: Vec::new(),
            original_pos: PomlNodePosition { start: element.start_pos, end: element.end_pos },
        };
        proof {
            assert(tag@.attributes =~= attributes_view(attributes@));
            assert(tag@.children =~= Seq::empty());
        }
        Ok(tag)
    }

    /// Whether a tag element ends in `/>`.
    pub fn is_self_close_tag_element(&self, element: &PomlElement) -> (r: bool)
        requires
            element_ok(self.buf@, *element),
        ensures
            r == is_self_close(self.buf@, *element),
    {
        match element.kind {
            PomlElementKind::Tag => self.buf[element.end_pos - 2] == '/' as u8,
            _ => false,
        }
    }

    /// Whether a tag element begins with `</`.
    pub fn is_close_tag_element(&self, element: &PomlElement) -> (r: bool)
        requires
            element_ok(self.buf@, *element),
        ensures
            r == is_close(self.buf@, *element),
    {
        match element.kind {
            PomlElementKind::Tag => self.buf[element.start_pos + 1] == '/' as u8,
            _ => false,
        }
    }

    /// Reads a tag name or an attribute name at `pos`: the name and the
    /// position after it.
    pub fn consume_key_str(&self, pos: usize) -> (r: (&'a [u8], usize))
        requires
            pos <= self.buf@.len(),
        ensures
            r.1 as int == key_end(self.buf@, pos as int),
            pos <= r.1 <= self.buf@.len(),
            r.0@ == self.buf@.subrange(pos as int, r.1 as int),
    {
        let buf = self.buf;
        let mut next_pos = pos;
        while next_pos < buf.len() && (ascii_alnum(buf[next_pos]) || buf[next_pos] == '-' as u8
            || buf[next_pos] == '_' as u8)
            invariant
                pos <= next_pos <= buf@.len(),
                key_end(buf@, pos as int) == key_end(buf@, next_pos as int),
            decreases buf@.len() - next_pos,
        {
            next_pos = next_pos + 1;
        }
        (slice_subrange(buf, pos, next_pos), next_pos)
    }

    /// Reads a quoted literal at `pos`: the literal with its quotes and the
    /// position after the closing quote.
    pub fn consume_value_str_literal(&self, pos: usize) -> (r: Result<(&'a [u8], usize), Error>)
        requires
            self.wf(),
        ensures
            match r {
                Ok((value, next)) => literal_at(self.buf@, pos as int) == Some((value@, next as int))
                    && pos < next <= self.buf@.len(),
                Err(e) => literal_at(self.buf@, pos as int) is None && e.rejects(ErrorKind::ParserError),
            },
    {
        let buf = self.buf;
        if pos >= buf.len() || buf[pos] != '"' as u8 {
            return Err(self.error_at("Expect '\"' for attribute value, but not found", pos));
        }
        let mut next_pos = pos + 1;
        let mut found = false;
        while next_pos < buf.len() && !found
            invariant
                pos < next_pos,
                literal_end(buf@, pos as int + 1) == literal_end(buf@, next_pos as int),
                found ==> next_pos < buf@.len() && buf@[next_pos as int] == '"' as u8,
            decreases buf@.len() - next_pos + (if found { 0int } else { 1int }),
        {
            if buf[next_pos] == '\\' as u8 {
                if buf.len() - next_pos < 2 {
                    next_pos = buf.len();
                } else {
                    next_pos = next_pos + 2;
                }
            } else if buf[next_pos] == '"' as u8 {
                found = true;
            } else {
                next_pos = next_pos + 1;
            }
        }
        if found {
            Ok((slice_subrange(buf, pos, next_pos + 1), next_pos + 1))
        } else {
            Err(self.error_at("String literal has not reach an end", next_pos))
        }
    }

    /// The first position at or after `pos` that holds no ASCII whitespace.
    pub fn consume_space(&self, pos: usize) -> (r: usize)
        ensures
            r as int == skip_spaces(self.buf@, pos as int),
    {
        let buf = self.buf;
        let mut next_pos = pos;
        while next_pos < buf.len() && ascii_space(buf[next_pos])
            invariant
                skip_spaces(buf@, pos as int) == skip_spaces(buf@, next_pos as int),
            decreases buf@.len() - next_pos,
        {
            next_pos = next_pos + 1;
        }
        next_pos
    }

    /// Cuts the rest of the document into elements and moves the cursor to
    /// its end.
    #[verifier::loop_isolation(false)]
    pub fn parse_as_elements(&mut self) -> (r: Result<Vec<PomlElement>, Error>)
        requires
            old(self).wf(),
        ensures
            final(self).wf(),
            final(self).buf == old(self).buf,
            match r {
                Ok(elements) => elements_from(old(self).buf@, old(self).pos as int, Seq::empty())
                    == Some(elements@) && final(self).pos == old(self).buf@.len(),
                Err(e) => elements_from(old(self).buf@, old(self).pos as int, Seq::empty()) is None
                    && e.rejects(ErrorKind::ParserError),
            },
    {
        let mut elements: Vec<PomlElement> = Vec::new();
        let ghost start = self.pos as int;
        loop
            invariant
                self.wf(),
                self.buf == old(self).buf,
                elements_from(self.buf@, start, Seq::empty()) == elements_from(
                    self.buf@,
                    self.pos as int,
                    elements@,
                ),
            decreases self.buf@.len() - self.pos,
        {
            let ghost before = self.pos as int;
            match self.next_element() {
                Err(e) => {
                    return Err(e);
                },
                Ok(None) => {
                    return Ok(elements);
                },
                Ok(Some(e)) => {
                    proof {
                        lemma_element_at_ok(self.buf@, before);
                    }
                    elements.push(e);
                },
            }
        }
    }

    /// The element at the cursor, which moves past it; `None` at the end of
    /// the document.
    pub fn next_element(&mut self) -> (r: Result<Option<PomlElement>, Error>)
        requires
            old(self).wf(),
        ensures
            final(self).wf(),
            final(self).buf == old(self).buf,
            match r {
                Ok(Some(e)) => old(self).pos < old(self).buf@.len() && element_at(
                    old(self).buf@,
                    old(self).pos as int,
                ) == Some(e) && final(self).pos == e.end_pos,
                Ok(None) => old(self).pos == old(self).buf@.len() && final(self).pos == old(
                    self,
                ).pos,
                Err(e) => old(self).pos < old(self).buf@.len() && element_at(
                    old(self).buf@,
                    old(self).pos as int,
                ) is None && e.rejects(ErrorKind::ParserError) && final(self).pos == old(self).pos,
            },
    {
        if self.pos < self.buf.len() {
            let c = self.buf[self.pos];
            let start_pos = self.pos;
            proof {
                lemma_element_at_ok(self.buf@, start_pos as int);
            }
            if ascii_space(c) {
                let end_pos = self.consume_space(self.pos);
                self.pos = end_pos;
                Ok(Some(PomlElement { kind: PomlElementKind::Whitespace, start_pos, end_pos }))
            } else if c == '<' as u8 {
                match self.seek_gt_char(start_pos + 1) {
                    Some(end_pos) => {
                        self.pos = end_pos;
                        Ok(Some(PomlElement { kind: PomlElementKind::Tag, start_pos, end_pos }))
                    },
                    None => Err(self.incomplete_tag_error(start_pos)),
                }
            } else {
                let end_pos = self.seek_end_of_text(start_pos + 1);
                self.pos = end_pos;
                Ok(Some(PomlElement { kind: PomlElementKind::Text, start_pos, end_pos }))
            }
        } else {
            Ok(None)
        }
    }

    /// The position after the `>` that ends the tag whose inside starts at
    /// `pos`.
    #[verifier::loop_isolation(false)]
    pub fn seek_gt_char(&self, pos: usize) -> (r: Option<usize>)
        ensures
            match r {
                Some(end) => seek_gt(self.buf@, pos as int, false) == Some(end as int),
                None => seek_gt(self.buf@, pos as int, false) is None,
            },
    {
        let buf = self.buf;
        let mut pos = pos;
        let ghost start = pos as int;
        let mut in_string = false;
        while pos < buf.len()
            invariant
                seek_gt(buf@, start, false) == seek_gt(buf@, pos as int, in_string),
            decreases buf@.len() - pos,
        {
            let b = buf[pos];
            if b == '>' as u8 && !in_string {
                return Some(pos + 1);
            } else if b == '"' as u8 {
                in_string = !in_string;
                pos = pos + 1;
            } else if b == '\\' as u8 && in_string {
                if buf.len() - pos < 2 {
                    pos = buf.len();
                } else {
                    pos = pos + 2;
                }
            } else {
                pos = pos + 1;
            }
        }
        None
    }

    /// The position at which the text that runs through `pos` ends.
    pub fn seek_end_of_text(&self, pos: usize) -> (r: usize)
        ensures
            r as int == text_end(self.buf@, pos as int),
    {
        let buf = self.buf;
        let mut pos = pos;
        let ghost start = pos as int;
        while pos < buf.len() && !(buf[pos] == '<' as u8 || buf[pos] == '\r' as u8 || buf[pos]
            == '\n' as u8)
            invariant
                text_end(buf@, start) == text_end(buf@, pos as int),
            decreases buf@.len() - pos,
        {
            pos = pos + 1;
        }
        pos
    }

    /// The line and the column of a position, both counted from 0.
    ///
    /// A position inside the document lies on the line whose end is the
    /// first line end at or after it. Its column is its offset itself on the
    /// first line, and its distance from the end of the line before on every
    /// other line. A position at or past the end of the document is reported
    /// as column 0 of the line after the last.
    pub fn get_line_and_col_from_pos(&self, pos: usize) -> (r: (usize, usize))
        requires
            self.wf(),
        ensures
            pos >= self.buf@.len() ==> r == (self.line_end_pos@.len() as usize, 0usize),
            pos < self.buf@.len() ==> line_of(self.line_end_pos@, pos as int, r.0 as int) && r.1
                == (if r.0 == 0 {
                pos as int
            } else {
                pos - self.line_end_pos@[r.0 - 1]
            }),
    {
        if pos >= self.buf.len() {
            return (self.line_end_pos.len(), 0);
        }
        proof {
            lemma_line_ends(self.buf@);
        }
        let ends = &self.line_end_pos;
        let mut l: usize = 0;
        let mut r: usize = ends.len() - 1;
        while l < r
            invariant
                l <= r < ends@.len(),
                ends@ == line_ends(self.buf@),
                ends@[r as int] >= pos,
                l > 0 ==> ends@[l - 1] < pos,
                forall|j: int, k: int| 0 <= j < k < ends@.len() ==> ends@[j] < ends@[k],
            decreases r - l,
        {
            let mid = l + (r - l) / 2;
            if ends[mid] < pos {
                l = mid + 1;
            } else {
                r = mid;
            }
        }
        let line_number = l;
        let offset = if line_number != 0 {
            ends[line_number - 1]
        } else {
            0
        };
        (line_number, pos - offset)
    }

    /// A parser error whose message names a position by line and column.
    fn error_at(&self, what: &str, pos: usize) -> (r: Error)
        requires
            self.wf(),
        ensures
            r.rejects(ErrorKind::ParserError),
    {
        let (line, col) = self.get_line_and_col_from_pos(pos);
        let mut message: Vec<u8> = Vec::new();
        push_text(&mut message, what);
        push_text(&mut message, " at position (");
        push_decimal(&mut message, line);
        push_text(&mut message, ", ");
        push_decimal(&mut message, col);
        push_text(&mut message, ")");
        Error::new(ErrorKind::ParserError, message.as_slice())
    }

    /// The error for a closing tag that does not match the open one.
    fn mismatch_error(&self, close_name: &[u8], pos: usize, open_name: &[u8]) -> (r: Error)
        requires
            self.wf(),
        ensures
            r.rejects(ErrorKind::ParserError),
    {
        let (line, col) = self.get_line_and_col_from_pos(pos);
        let mut message: Vec<u8> = Vec::new();
        push_text(&mut message, "Close tag of </");
        push_bytes(&mut message, close_name);
        push_text(&mut message, "> appears at position (");
        push_decimal(&mut message, line);
        push_text(&mut message, ", ");
        push_decimal(&mut message, col);
        push_text(&mut message, "), but the open tag is <");
        push_bytes(&mut message, open_name);
        push_text(&mut message, ">");
        Error::new(ErrorKind::ParserError, message.as_slice())
    }

    /// The error for a tag that opens and never ends.
    fn incomplete_tag_error(&self, start_pos: usize) -> (r: Error)
        ensures
            r.rejects(ErrorKind::ParserError),
    {
        let mut message: Vec<u8> = Vec::new();
        push_text(&mut message, "Tag starting from ");
        push_decimal(&mut message, start_pos);
        push_text(&mut message, " is not complete");
        Error::new(ErrorKind::ParserError, message.as_slice())
    }
}

} // verus!
