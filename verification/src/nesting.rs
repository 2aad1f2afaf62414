//! Documents that are tags only, correctly nested.
//!
//! An outline is a tag name with the outlines of its children. Written out,
//! it is `<name>`, its children in order, and `</name>`. Parsing what an
//! outline writes succeeds, and gives back the outline as a tree: every tag
//! with its children in document order, at the place where it was written.

use vstd::prelude::*;
use crate::node::{NodeView, PomlNodePosition, TagView};
use crate::parser::{
    attributes_from, build_from, build_step, element_at, elements_from, implicit_root, is_close,
    is_key_byte, is_self_close, key_end, parse_document, push_child, seek_gt, skip_spaces, tag_at,
    BuildStep, PomlElement, PomlElementKind,
};
use crate::text::text;

verus! {

/// A tag and the tags inside it.
pub ghost struct Outline {
    pub name: Seq<u8>,
    pub children: Seq<Outline>,
}

/// Every name of the outline is a tag name: one or more letters, digits,
/// `-` and `_`.
pub open spec fn outline_ok(o: Outline) -> bool
    decreases o,
{
    &&& o.name.len() > 0
    &&& forall|k: int| 0 <= k < o.name.len() ==> is_key_byte(#[trigger] o.name[k])
    &&& forall|i: int| 0 <= i < o.children.len() ==> outline_ok(#[trigger] o.children[i])
}

/// `<name>`.
pub open spec fn open_tag(name: Seq<u8>) -> Seq<u8> {
    seq!['<' as u8] + name + seq!['>' as u8]
}

/// `</name>`.
pub open spec fn close_tag(name: Seq<u8>) -> Seq<u8> {
    seq!['<' as u8, '/' as u8] + name + seq!['>' as u8]
}

/// The document that an outline writes.
pub open spec fn written(o: Outline) -> Seq<u8>
    decreases o, 0int,
{
    open_tag(o.name) + written_from(o.children, 0) + close_tag(o.name)
}

/// What the outlines from index `i` on write, one after the other.
pub open spec fn written_from(children: Seq<Outline>, i: int) -> Seq<u8>
    decreases children, children.len() - i,
{
    if !(0 <= i < children.len()) {
        Seq::empty()
    } else {
        written(children[i]) + written_from(children, i + 1)
    }
}

/// The tree of an outline that is written at offset `at`.
pub open spec fn tree(o: Outline, at: int) -> TagView
    decreases o, 0int,
{
    TagView {
        name: o.name,
        attributes: Seq::empty(),
        children: forest(o.children, 0, at + o.name.len() + 2, Seq::empty()),
        original_pos: PomlNodePosition {
            start: at as usize,
            end: (at + written(o).len()) as usize,
        },
    }
}

/// `acc` followed by the trees of the outlines from index `i` on, the first
/// of which is written at offset `at`.
pub open spec fn forest(children: Seq<Outline>, i: int, at: int, acc: Seq<NodeView>) -> Seq<NodeView>
    decreases children, children.len() - i,
{
    if !(0 <= i < children.len()) {
        acc
    } else {
        forest(
            children,
            i + 1,
            at + written(children[i]).len(),
            acc.push(NodeView::Tag(tree(children[i], at))),
        )
    }
}

/// The number of tags, opening and closing, that an outline writes.
pub open spec fn tag_count(o: Outline) -> int
    decreases o, 0int,
{
    2 + tag_count_from(o.children, 0)
}

pub open spec fn tag_count_from(children: Seq<Outline>, i: int) -> int
    decreases children, children.len() - i,
{
    if !(0 <= i < children.len()) {
        0
    } else {
        tag_count(children[i]) + tag_count_from(children, i + 1)
    }
}

/// A tag element.
pub open spec fn tag_element(start: int, end: int) -> PomlElement {
    PomlElement { kind: PomlElementKind::Tag, start_pos: start as usize, end_pos: end as usize }
}

/// `acc` followed by the elements of an outline that is written at `at`.
pub open spec fn with_elements(acc: Seq<PomlElement>, o: Outline, at: int) -> Seq<PomlElement>
    decreases o, 0int,
{
    let inner = at + o.name.len() + 2;
    let close = inner + written_from(o.children, 0).len();
    with_elements_from(acc.push(tag_element(at, inner)), o.children, 0, inner).push(
        tag_element(close, close + o.name.len() + 3),
    )
}

/// `acc` followed by the elements of the outlines from index `i` on.
pub open spec fn with_elements_from(
    acc: Seq<PomlElement>,
    children: Seq<Outline>,
    i: int,
    at: int,
) -> Seq<PomlElement>
    decreases children, children.len() - i,
{
    if !(0 <= i < children.len()) {
        acc
    } else {
        with_elements_from(
            with_elements(acc, children[i], at),
            children,
            i + 1,
            at + written(children[i]).len(),
        )
    }
}

/// The bytes `s` stand in `buf` at `at`.
pub open spec fn embeds(buf: Seq<u8>, at: int, s: Seq<u8>) -> bool {
    &&& 0 <= at
    &&& at + s.len() <= buf.len()
    &&& forall|k: int| 0 <= k < s.len() ==> buf[at + k] == #[trigger] s[k]
}

/// `a` is the start of `b`.
pub open spec fn starts(a: Seq<PomlElement>, b: Seq<PomlElement>) -> bool {
    &&& a.len() <= b.len()
    &&& forall|k: int| 0 <= k < a.len() ==> #[trigger] b[k] == a[k]
}

pub proof fn lemma_embeds_split(buf: Seq<u8>, at: int, a: Seq<u8>, b: Seq<u8>)
    requires
        embeds(buf, at, a + b),
    ensures
        embeds(buf, at, a),
        embeds(buf, at + a.len(), b),
{
    assert forall|k: int| 0 <= k < a.len() implies buf[at + k] == #[trigger] a[k] by {
        assert((a + b)[k] == a[k]);
    }
    assert forall|k: int| 0 <= k < b.len() implies buf[at + a.len() + k] == #[trigger] b[k] by {
        assert((a + b)[a.len() + k] == b[k]);
    }
}

/// The parts of a written outline, where they stand.
pub proof fn lemma_written_parts(buf: Seq<u8>, o: Outline, at: int)
    requires
        embeds(buf, at, written(o)),
    ensures
        written(o).len() == 2 * o.name.len() + 5 + written_from(o.children, 0).len(),
        buf[at] == '<' as u8,
        forall|k: int| 0 <= k < o.name.len() ==> buf[at + 1 + k] == #[trigger] o.name[k],
        buf[at + 1 + o.name.len()] == '>' as u8,
        embeds(buf, at + o.name.len() + 2, written_from(o.children, 0)),
        ({
            let close = at + o.name.len() + 2 + written_from(o.children, 0).len();
            &&& buf[close] == '<' as u8
            &&& buf[close + 1] == '/' as u8
            &&& forall|k: int| 0 <= k < o.name.len() ==> buf[close + 2 + k] == #[trigger] o.name[k]
            &&& buf[close + 2 + o.name.len()] == '>' as u8
            &&& close + o.name.len() + 3 == at + written(o).len()
        }),
{
    let head = open_tag(o.name);
    let body = written_from(o.children, 0);
    let tail = close_tag(o.name);
    let n = o.name.len() as int;
    assert(written(o) == head + body + tail);
    lemma_embeds_split(buf, at, head + body, tail);
    lemma_embeds_split(buf, at, head, body);
    assert(head.len() == n + 2);
    assert(tail.len() == n + 3);
    assert(head[0] == '<' as u8);
    assert(head[n + 1] == '>' as u8);
    assert forall|k: int| 0 <= k < n implies buf[at + 1 + k] == #[trigger] o.name[k] by {
        assert(head[1 + k] == o.name[k]);
    }
    let close = at + n + 2 + body.len();
    assert(tail[0] == '<' as u8);
    assert(tail[1] == '/' as u8);
    assert(tail[n + 2] == '>' as u8);
    assert forall|k: int| 0 <= k < n implies buf[close + 2 + k] == #[trigger] o.name[k] by {
        assert(tail[2 + k] == o.name[k]);
    }
}

/// The first of several written outlines, and the rest.
pub proof fn lemma_written_from_parts(buf: Seq<u8>, children: Seq<Outline>, i: int, at: int)
    requires
        0 <= i < children.len(),
        embeds(buf, at, written_from(children, i)),
    ensures
        written_from(children, i).len() == written(children[i]).len() + written_from(
            children,
            i + 1,
        ).len(),
        embeds(buf, at, written(children[i])),
        embeds(buf, at + written(children[i]).len(), written_from(children, i + 1)),
{
    lemma_embeds_split(buf, at, written(children[i]), written_from(children, i + 1));
}

/// The elements of an outline come after the elements before them, and
/// are as many as its tags.
pub proof fn lemma_with_elements(acc: Seq<PomlElement>, o: Outline, at: int)
    ensures
        starts(acc, with_elements(acc, o, at)),
        with_elements(acc, o, at).len() == acc.len() + tag_count(o),
        tag_count(o) >= 2,
    decreases o, 0int,
{
    let inner = at + o.name.len() + 2;
    let first = acc.push(tag_element(at, inner));
    lemma_with_elements_from(first, o.children, 0, inner);
}

pub proof fn lemma_with_elements_from(
    acc: Seq<PomlElement>,
    children: Seq<Outline>,
    i: int,
    at: int,
)
    ensures
        starts(acc, with_elements_from(acc, children, i, at)),
        with_elements_from(acc, children, i, at).len() == acc.len() + tag_count_from(children, i),
        tag_count_from(children, i) >= 0,
    decreases children, children.len() - i,
{
    if 0 <= i < children.len() {
        lemma_with_elements(acc, children[i], at);
        lemma_with_elements_from(
            with_elements(acc, children[i], at),
            children,
            i + 1,
            at + written(children[i]).len(),
        );
    }
}

/// From inside a tag that holds no quote and no `>`, the tag ends at its
/// `>`.
pub proof fn lemma_seek_gt_plain(buf: Seq<u8>, pos: int, end: int)
    requires
        0 <= pos <= end < buf.len(),
        buf[end] == '>' as u8,
        forall|k: int| pos <= k < end ==> buf[k] != '>' as u8 && buf[k] != '"' as u8,
    ensures
        seek_gt(buf, pos, false) == Some(end + 1),
    decreases end - pos,
{
    if pos < end {
        lemma_seek_gt_plain(buf, pos + 1, end);
    }
}

/// A name ends where the first byte stands that is no byte of a name.
pub proof fn lemma_key_end_name(buf: Seq<u8>, pos: int, end: int)
    requires
        0 <= pos <= end < buf.len(),
        !is_key_byte(buf[end]),
        forall|k: int| pos <= k < end ==> is_key_byte(buf[k]),
    ensures
        key_end(buf, pos) == end,
    decreases end - pos,
{
    if pos < end {
        lemma_key_end_name(buf, pos + 1, end);
    }
}

/// The tokenizer reads the tags of a written outline, and nothing else.
pub proof fn lemma_tokenize_outline(buf: Seq<u8>, o: Outline, at: int, acc: Seq<PomlElement>)
    requires
        outline_ok(o),
        embeds(buf, at, written(o)),
        buf.len() <= usize::MAX,
    ensures
        elements_from(buf, at, acc) == elements_from(
            buf,
            at + written(o).len(),
            with_elements(acc, o, at),
        ),
    decreases o, 0int,
{
    let n = o.name.len() as int;
    let inner = at + n + 2;
    let body = written_from(o.children, 0);
    let close = inner + body.len();
    lemma_written_parts(buf, o, at);
    // the opening tag
    assert forall|k: int| at + 1 <= k < at + 1 + n implies buf[k] != '>' as u8 && buf[k]
        != '"' as u8 by {
        assert(buf[at + 1 + (k - at - 1)] == o.name[k - at - 1]);
    }
    lemma_seek_gt_plain(buf, at + 1, at + 1 + n);
    assert(element_at(buf, at) == Some(tag_element(at, inner)));
    let first = acc.push(tag_element(at, inner));
    assert(elements_from(buf, at, acc) == elements_from(buf, inner, first));
    // the children
    lemma_tokenize_outlines(buf, o.children, 0, inner, first);
    let before_close = with_elements_from(first, o.children, 0, inner);
    // the closing tag
    assert forall|k: int| close + 1 <= k < close + 2 + n implies buf[k] != '>' as u8 && buf[k]
        != '"' as u8 by {
        if k > close + 1 {
            assert(buf[close + 2 + (k - close - 2)] == o.name[k - close - 2]);
        }
    }
    lemma_seek_gt_plain(buf, close + 1, close + 2 + n);
    assert(element_at(buf, close) == Some(tag_element(close, close + n + 3)));
    assert(elements_from(buf, close, before_close) == elements_from(
        buf,
        close + n + 3,
        before_close.push(tag_element(close, close + n + 3)),
    ));
}

pub proof fn lemma_tokenize_outlines(
    buf: Seq<u8>,
    children: Seq<Outline>,
    i: int,
    at: int,
    acc: Seq<PomlElement>,
)
    requires
        0 <= i,
        forall|k: int| 0 <= k < children.len() ==> outline_ok(#[trigger] children[k]),
        embeds(buf, at, written_from(children, i)),
        buf.len() <= usize::MAX,
    ensures
        elements_from(buf, at, acc) == elements_from(
            buf,
            at + written_from(children, i).len(),
            with_elements_from(acc, children, i, at),
        ),
    decreases children, children.len() - i,
{
    if i < children.len() {
        lemma_written_from_parts(buf, children, i, at);
        lemma_tokenize_outline(buf, children[i], at, acc);
        lemma_tokenize_outlines(
            buf,
            children,
            i + 1,
            at + written(children[i]).len(),
            with_elements(acc, children[i], at),
        );
    }
}

/// The stack of open tags with the children of its top replaced.
pub open spec fn with_children(stack: Seq<TagView>, children: Seq<NodeView>) -> Seq<TagView> {
    stack.drop_last().push(TagView { children, ..stack.last() })
}

/// The tag that the opening tag of an outline writes.
pub open spec fn opened(o: Outline, at: int) -> TagView {
    TagView {
        name: o.name,
        attributes: Seq::empty(),
        children: Seq::empty(),
        original_pos: PomlNodePosition {
            start: at as usize,
            end: (at + o.name.len() + 2) as usize,
        },
    }
}

pub proof fn lemma_starts_chain(a: Seq<PomlElement>, b: Seq<PomlElement>, c: Seq<PomlElement>)
    requires
        starts(a, b),
        starts(b, c),
    ensures
        starts(a, c),
{
    assert forall|k: int| 0 <= k < a.len() implies #[trigger] c[k] == a[k] by {
        assert(b[k] == a[k]);
    }
}

/// The opening tag of a written outline is read as a tag without
/// attributes.
pub proof fn lemma_open_tag(buf: Seq<u8>, o: Outline, at: int)
    requires
        outline_ok(o),
        embeds(buf, at, written(o)),
        buf.len() <= usize::MAX,
    ensures
        ({
            let e = tag_element(at, at + o.name.len() + 2);
            &&& !is_self_close(buf, e)
            &&& !is_close(buf, e)
            &&& tag_at(buf, e) == Some(opened(o, at))
        }),
{
    let n = o.name.len() as int;
    let e = tag_element(at, at + n + 2);
    lemma_written_parts(buf, o, at);
    assert(buf[at + 1 + (n - 1)] == o.name[n - 1]);
    assert(buf[at + 1 + 0] == o.name[0]);
    assert forall|k: int| at + 1 <= k < at + 1 + n implies is_key_byte(buf[k]) by {
        assert(buf[at + 1 + (k - at - 1)] == o.name[k - at - 1]);
    }
    lemma_key_end_name(buf, at + 1, at + 1 + n);
    assert(skip_spaces(buf, at + 1 + n) == at + 1 + n);
    assert(attributes_from(buf, at + 1 + n, Seq::empty()) == Some(
        Seq::<(Seq<u8>, Seq<u8>)>::empty(),
    ));
    assert(buf.subrange(at + 1, at + 1 + n) =~= o.name);
}

/// The closing tag of a written outline is read as a closing tag with the
/// name of the outline.
pub proof fn lemma_close_tag(buf: Seq<u8>, o: Outline, at: int)
    requires
        outline_ok(o),
        embeds(buf, at, written(o)),
        buf.len() <= usize::MAX,
    ensures
        ({
            let close = at + o.name.len() + 2 + written_from(o.children, 0).len();
            let e = tag_element(close, close + o.name.len() + 3);
            &&& !is_self_close(buf, e)
            &&& is_close(buf, e)
            &&& buf.subrange(close + 2, key_end(buf, close + 2)) == o.name
            &&& close + o.name.len() + 3 == at + written(o).len()
        }),
{
    let n = o.name.len() as int;
    let close = at + n + 2 + written_from(o.children, 0).len();
    lemma_written_parts(buf, o, at);
    assert(buf[close + 2 + (n - 1)] == o.name[n - 1]);
    assert forall|k: int| close + 2 <= k < close + 2 + n implies is_key_byte(buf[k]) by {
        assert(buf[close + 2 + (k - close - 2)] == o.name[k - close - 2]);
    }
    lemma_key_end_name(buf, close + 2, close + 2 + n);
    assert(buf.subrange(close + 2, close + 2 + n) =~= o.name);
}

/// From inside an outline to its end. With the tag of the outline open on
/// top of the tags `below`, the elements of its children and its closing
/// tag close it: it becomes the document where nothing is below, and else
/// a child of the tag below.
pub proof fn lemma_build_inside(
    buf: Seq<u8>,
    es: Seq<PomlElement>,
    acc: Seq<PomlElement>,
    o: Outline,
    at: int,
    below: Seq<TagView>,
    added: bool,
)
    requires
        outline_ok(o),
        embeds(buf, at, written(o)),
        buf.len() <= usize::MAX,
        starts(with_elements(acc, o, at), es),
    ensures
        build_from(buf, es, acc.len() as int + 1, below.push(opened(o, at)), added) == (if below.len()
            == 0 {
            Some(tree(o, at))
        } else {
            build_from(
                buf,
                es,
                acc.len() + tag_count(o),
                push_child(below, NodeView::Tag(tree(o, at))),
                added,
            )
        }),
    decreases o, 1int,
{
    let n = o.name.len() as int;
    let inner = at + n + 2;
    let first = acc.push(tag_element(at, inner));
    let before_close = with_elements_from(first, o.children, 0, inner);
    let close = inner + written_from(o.children, 0).len();
    let e = tag_element(close, close + n + 3);
    let all = with_elements(acc, o, at);
    lemma_written_parts(buf, o, at);
    lemma_with_elements_from(first, o.children, 0, inner);
    assert(all == before_close.push(e));
    assert(starts(before_close, all));
    lemma_starts_chain(before_close, all, es);
    let stack = below.push(opened(o, at));
    lemma_build_outlines(buf, es, first, o.children, 0, inner, stack, added);
    let children = forest(o.children, 0, inner, Seq::empty());
    let full = with_children(stack, children);
    let index = acc.len() + 1 + tag_count_from(o.children, 0);
    assert(es[index] == all[index]);
    assert(es[index] == e);
    lemma_close_tag(buf, o, at);
    assert(full.last().name == o.name);
    let closed = TagView {
        original_pos: PomlNodePosition {
            start: full.last().original_pos.start,
            end: e.end_pos,
        },
        ..full.last()
    };
    assert(closed == tree(o, at));
    assert(full.drop_last() =~= below);
    if below.len() == 0 {
        assert(build_step(buf, full, added, e) == BuildStep::Done(closed));
    } else {
        assert(build_step(buf, full, added, e) == BuildStep::Open(
            push_child(below, NodeView::Tag(closed)),
            added,
        ));
    }
}

/// The elements of a written outline add its tree to the children of the
/// open tag.
pub proof fn lemma_build_outline(
    buf: Seq<u8>,
    es: Seq<PomlElement>,
    acc: Seq<PomlElement>,
    o: Outline,
    at: int,
    stack: Seq<TagView>,
    added: bool,
)
    requires
        outline_ok(o),
        embeds(buf, at, written(o)),
        buf.len() <= usize::MAX,
        starts(with_elements(acc, o, at), es),
        stack.len() > 0,
    ensures
        build_from(buf, es, acc.len() as int, stack, added) == build_from(
            buf,
            es,
            acc.len() + tag_count(o),
            push_child(stack, NodeView::Tag(tree(o, at))),
            added,
        ),
    decreases o, 2int,
{
    let n = o.name.len() as int;
    let inner = at + n + 2;
    let first = acc.push(tag_element(at, inner));
    let all = with_elements(acc, o, at);
    lemma_with_elements(acc, o, at);
    lemma_with_elements_from(first, o.children, 0, inner);
    assert(all[acc.len() as int] == first[acc.len() as int]);
    assert(es[acc.len() as int] == tag_element(at, inner));
    lemma_open_tag(buf, o, at);
    assert(build_step(buf, stack, added, tag_element(at, inner)) == BuildStep::Open(
        stack.push(opened(o, at)),
        added,
    ));
    lemma_build_inside(buf, es, acc, o, at, stack, added);
}

/// The elements of written outlines add their trees, in order, to the
/// children of the open tag.
pub proof fn lemma_build_outlines(
    buf: Seq<u8>,
    es: Seq<PomlElement>,
    acc: Seq<PomlElement>,
    children: Seq<Outline>,
    i: int,
    at: int,
    stack: Seq<TagView>,
    added: bool,
)
    requires
        0 <= i,
        forall|k: int| 0 <= k < children.len() ==> outline_ok(#[trigger] children[k]),
        embeds(buf, at, written_from(children, i)),
        buf.len() <= usize::MAX,
        starts(with_elements_from(acc, children, i, at), es),
        stack.len() > 0,
    ensures
        build_from(buf, es, acc.len() as int, stack, added) == build_from(
            buf,
            es,
            acc.len() + tag_count_from(children, i),
            with_children(stack, forest(children, i, at, stack.last().children)),
            added,
        ),
    decreases children, children.len() - i,
{
    if i < children.len() {
        let child = children[i];
        let next = with_elements(acc, child, at);
        let after = at + written(child).len();
        lemma_written_from_parts(buf, children, i, at);
        lemma_with_elements(acc, child, at);
        lemma_with_elements_from(next, children, i + 1, after);
        lemma_starts_chain(next, with_elements_from(next, children, i + 1, after), es);
        lemma_build_outline(buf, es, acc, child, at, stack, added);
        let grown = push_child(stack, NodeView::Tag(tree(child, at)));
        lemma_build_outlines(buf, es, next, children, i + 1, after, grown, added);
        assert(with_children(grown, forest(children, i + 1, after, grown.last().children))
            =~= with_children(stack, forest(children, i, at, stack.last().children)));
    } else {
        assert(with_children(stack, stack.last().children) =~= stack);
    }
}

/// A document of correctly nested tags under a root `poml` parses, and its
/// tree is its outline: every tag holds its children in document order.
pub proof fn lemma_nested_document_parses(o: Outline)
    requires
        outline_ok(o),
        o.name == text("poml"),
        written(o).len() <= usize::MAX,
    ensures
        parse_document(written(o), 0) == Some(tree(o, 0)),
{
    let buf = written(o);
    let empty = Seq::<PomlElement>::empty();
    let es = with_elements(empty, o, 0);
    assert(embeds(buf, 0, buf));
    lemma_tokenize_outline(buf, o, 0, empty);
    assert(elements_from(buf, buf.len() as int, es) == Some(es));
    lemma_with_elements(empty, o, 0);
    lemma_with_elements_from(
        empty.push(tag_element(0, o.name.len() as int + 2)),
        o.children,
        0,
        o.name.len() as int + 2,
    );
    assert(es[0] == tag_element(0, o.name.len() as int + 2));
    lemma_open_tag(buf, o, 0);
    let none = Seq::<TagView>::empty();
    assert(build_step(buf, none, false, es[0]) == BuildStep::Open(
        none.push(opened(o, 0)),
        false,
    ));
    lemma_build_inside(buf, es, empty, o, 0, none, false);
}

/// A document of correctly nested tags under another root parses too: its
/// tree stands under a root `poml` that spans the document.
pub proof fn lemma_nested_document_gets_a_root(o: Outline)
    requires
        outline_ok(o),
        o.name != text("poml"),
        written(o).len() <= usize::MAX,
    ensures
        parse_document(written(o), 0) == Some(
            implicit_root(0, written(o).len() as usize).with_child(NodeView::Tag(tree(o, 0))),
        ),
{
    let buf = written(o);
    let empty = Seq::<PomlElement>::empty();
    let es = with_elements(empty, o, 0);
    assert(embeds(buf, 0, buf));
    lemma_tokenize_outline(buf, o, 0, empty);
    assert(elements_from(buf, buf.len() as int, es) == Some(es));
    lemma_with_elements(empty, o, 0);
    lemma_with_elements_from(
        empty.push(tag_element(0, o.name.len() as int + 2)),
        o.children,
        0,
        o.name.len() as int + 2,
    );
    assert(es[0] == tag_element(0, o.name.len() as int + 2));
    lemma_open_tag(buf, o, 0);
    let none = Seq::<TagView>::empty();
    let root = implicit_root(0, buf.len() as usize);
    let below = seq![root];
    assert(seq![root, opened(o, 0)] =~= below.push(opened(o, 0)));
    assert(build_step(buf, none, false, es[0]) == BuildStep::Open(
        below.push(opened(o, 0)),
        true,
    ));
    lemma_build_inside(buf, es, empty, o, 0, below, true);
    let done = push_child(below, NodeView::Tag(tree(o, 0)));
    assert(done =~= seq![root.with_child(NodeView::Tag(tree(o, 0)))]);
    assert(es.len() == tag_count(o));
}

/// A closing tag that does not match the open tag is rejected, wherever it
/// stands.
pub proof fn lemma_mismatched_close_fails(
    buf: Seq<u8>,
    es: Seq<PomlElement>,
    i: int,
    stack: Seq<TagView>,
    added: bool,
)
    requires
        0 <= i < es.len(),
        es[i].kind == PomlElementKind::Tag,
        !is_self_close(buf, es[i]),
        is_close(buf, es[i]),
        stack.len() == 0 || buf.subrange(
            es[i].start_pos + 2,
            key_end(buf, es[i].start_pos + 2),
        ) != stack.last().name,
    ensures
        build_from(buf, es, i, stack, added) is None,
{
}

/// A tag that is still open at the end of the document is rejected, unless
/// it is the root that was supplied.
pub proof fn lemma_unclosed_tag_fails(
    buf: Seq<u8>,
    es: Seq<PomlElement>,
    stack: Seq<TagView>,
    added: bool,
)
    requires
        stack.len() != 1 || !added,
    ensures
        build_from(buf, es, es.len() as int, stack, added) is None,
{
}

/// A new child under the top of the stack leaves the names as they are.
pub proof fn lemma_push_child_names(stack: Seq<TagView>, child: NodeView)
    requires
        stack.len() > 0,
    ensures
        push_child(stack, child).len() == stack.len(),
        push_child(stack, child)[0].name == stack[0].name,
{
}

/// Whatever the elements build, its root is named `poml`, where the tag at
/// the bottom of the stack is.
pub proof fn lemma_build_root_name(
    buf: Seq<u8>,
    es: Seq<PomlElement>,
    i: int,
    stack: Seq<TagView>,
    added: bool,
)
    requires
        stack.len() > 0 ==> stack[0].name == text("poml"),
    ensures
        build_from(buf, es, i, stack, added) matches Some(root) ==> root.name == text("poml"),
    decreases es.len() - i,
{
    if 0 <= i < es.len() {
        let e = es[i];
        match build_step(buf, stack, added, e) {
            BuildStep::Fail => {},
            BuildStep::Done(root) => {},
            BuildStep::Open(next, next_added) => {
                if stack.len() > 0 {
                    match e.kind {
                        PomlElementKind::Tag => {
                            if is_self_close(buf, e) {
                                lemma_push_child_names(stack, NodeView::Tag(tag_at(buf, e)->Some_0));
                            } else if is_close(buf, e) {
                                let top = stack.last();
                                let closed = TagView {
                                    original_pos: PomlNodePosition {
                                        start: top.original_pos.start,
                                        end: e.end_pos,
                                    },
                                    ..top
                                };
                                lemma_push_child_names(stack.drop_last(), NodeView::Tag(closed));
                            } else {
                            }
                        },
                        PomlElementKind::Text => {
                            let span = PomlNodePosition { start: e.start_pos, end: e.end_pos };
                            lemma_push_child_names(
                                stack,
                                NodeView::Text(
                                    buf.subrange(e.start_pos as int, e.end_pos as int),
                                    span,
                                ),
                            );
                        },
                        PomlElementKind::Whitespace => {
                            let span = PomlNodePosition { start: e.start_pos, end: e.end_pos };
                            lemma_push_child_names(stack, NodeView::Whitespace(span));
                        },
                    }
                }
                lemma_build_root_name(buf, es, i + 1, next, next_added);
            },
        }
    }
}

/// The root of every parsed document is named `poml`.
pub proof fn lemma_root_is_poml(buf: Seq<u8>, pos: int)
    ensures
        parse_document(buf, pos) matches Some(root) ==> root.name == text("poml"),
{
    match elements_from(buf, pos, Seq::empty()) {
        None => {},
        Some(es) => {
            lemma_build_root_name(buf, es, 0, Seq::empty(), false);
        },
    }
}

} // verus!
