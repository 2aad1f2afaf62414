//! The document tree.

use vstd::prelude::*;

verus! {

/// Byte offsets of a node in the document it was parsed from.
#[derive(Debug, PartialEq, Clone, Copy)]
pub struct PomlNodePosition {
    pub start: usize,
    pub end: usize,
}

/// A node of a parsed document.
#[derive(Debug, PartialEq)]
pub enum PomlNode<'a> {
    /// A tag with its attributes and children.
    Tag(PomlTagNode<'a>),
    /// A run of text.
    Text(&'a [u8], PomlNodePosition),
    /// A run of whitespace: it separates, and renders as one space.
    Whitespace(PomlNodePosition),
}

/// A tag: its name, its attributes in document order, each value still in
/// its quotes, its children in document order, and its span.
#[derive(Debug, PartialEq)]
pub struct PomlTagNode<'a> {
    pub name: &'a [u8],
    pub attributes: Vec<(&'a [u8], &'a [u8])>,
    pub children: Vec<PomlNode<'a>>,
    pub original_pos: PomlNodePosition,
}

/// The mathematical value of a node.
pub ghost enum NodeView {
    Tag(TagView),
    Text(Seq<u8>, PomlNodePosition),
    Whitespace(PomlNodePosition),
}

/// The mathematical value of a tag.
pub ghost struct TagView {
    pub name: Seq<u8>,
    pub attributes: Seq<(Seq<u8>, Seq<u8>)>,
    pub children: Seq<NodeView>,
    pub original_pos: PomlNodePosition,
}

/// The value of a node.
pub open spec fn node_view(n: &PomlNode) -> NodeView
    decreases n,
{
    match n {
        PomlNode::Tag(t) => NodeView::Tag(tag_view(t)),
        PomlNode::Text(s, p) => NodeView::Text(s@, *p),
        PomlNode::Whitespace(p) => NodeView::Whitespace(*p),
    }
}

/// The value of a tag.
pub open spec fn tag_view(t: &PomlTagNode) -> TagView
    decreases t,
{
    TagView {
        name: t.name@,
        attributes: Seq::new(
            t.attributes.len() as nat,
            |i: int| (t.attributes[i].0@, t.attributes[i].1@),
        ),
        children: Seq::new(
            t.children.len() as nat,
            |i: int|
                if 0 <= i < t.children.len() {
                    node_view(&t.children[i])
                } else {
                    NodeView::Whitespace(PomlNodePosition { start: 0, end: 0 })
                },
        ),
        original_pos: t.original_pos,
    }
}

impl<'a> View for PomlNode<'a> {
    type V = NodeView;

    open spec fn view(&self) -> NodeView {
        node_view(self)
    }
}

impl<'a> View for PomlTagNode<'a> {
    type V = TagView;

    open spec fn view(&self) -> TagView {
        tag_view(self)
    }
}

impl<'a> PomlNode<'a> {
    pub fn is_tag(&self) -> (r: bool)
        ensures
            r == (self@ is Tag),
    {
        matches!(self, PomlNode::Tag(_))
    }

    pub fn is_whitespace(&self) -> (r: bool)
        ensures
            r == (self@ is Whitespace),
    {
        matches!(self, PomlNode::Whitespace(_))
    }
}

impl TagView {
    /// The tag with one more child at the end.
    pub open spec fn with_child(self, child: NodeView) -> TagView {
        TagView { children: self.children.push(child), ..self }
    }
}

impl<'a> PomlTagNode<'a> {
    /// Appends a child.
    pub fn add_child(&mut self, child: PomlNode<'a>)
        ensures
            final(self)@ == old(self)@.with_child(child@),
    {
        self.children.push(child);
        proof {
            let before = old(self)@.children;
            let after = self@.children;
            assert(after.len() == before.len() + 1);
            assert forall|i: int| 0 <= i < after.len() implies after[i] == before.push(child@)[i] by {
                if i < before.len() {
                    assert(self.children[i] == old(self).children[i]);
                }
            }
            assert(after =~= before.push(child@));
            assert(self@.attributes =~= old(self)@.attributes);
        }
    }
}

} // verus!
