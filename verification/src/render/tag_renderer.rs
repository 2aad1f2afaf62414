//! Tag renderers: what turns a tag, its attributes and its rendered children
//! into output.

pub mod attribute_utils;
pub mod markdown;

use vstd::prelude::*;
use crate::error::{Error, Failure};
use crate::node::{PomlTagNode, TagView};
use crate::render::utils::texts_view;
use crate::text::{push_bytes, push_text, text};

verus! {

/// The views of a list of attributes with their values.
pub open spec fn pairs_view(pairs: Seq<(Vec<u8>, Vec<u8>)>) -> Seq<(Seq<u8>, Seq<u8>)> {
    Seq::new(pairs.len(), |i: int| (pairs[i].0@, pairs[i].1@))
}

/// The value of the first attribute with the given name.
pub open spec fn attribute(attributes: Seq<(Seq<u8>, Seq<u8>)>, name: Seq<u8>) -> Option<Seq<u8>>
    decreases attributes.len(),
{
    if attributes.len() == 0 {
        None
    } else if attributes[0].0 == name {
        Some(attributes[0].1)
    } else {
        attribute(attributes.drop_first(), name)
    }
}

/// The value of the first attribute with the given name.
pub fn find_attribute<'a>(attribute_values: &'a [(Vec<u8>, Vec<u8>)], name: &str) -> (r: Option<
    &'a Vec<u8>,
>)
    ensures
        match r {
            Some(v) => attribute(pairs_view(attribute_values@), text(name)) == Some(v@),
            None => attribute(pairs_view(attribute_values@), text(name)) is None,
        },
{
    let ghost all = pairs_view(attribute_values@);
    let mut i: usize = 0;
    proof {
        assert(all.skip(0) =~= all);
    }
    while i < attribute_values.len()
        invariant
            i <= attribute_values.len(),
            all == pairs_view(attribute_values@),
            attribute(all, text(name)) == attribute(all.skip(i as int), text(name)),
        decreases attribute_values.len() - i,
    {
        proof {
            assert(all.skip(i as int).drop_first() =~= all.skip(i as int + 1));
            assert(all.skip(i as int)[0] == all[i as int]);
        }
        if crate::text::is_text(attribute_values[i].0.as_slice(), name) {
            return Some(&attribute_values[i].1);
        }
        i = i + 1;
    }
    None
}

/// What a tag renderer has to offer: one method that writes a tag.
pub trait TagRenderer {
    /// What the renderer writes for a tag with these attribute values and
    /// these rendered children, or why it writes nothing. A renderer that
    /// is verified says here what it writes.
    open spec fn written(
        &self,
        tag: TagView,
        attribute_values: Seq<(Seq<u8>, Seq<u8>)>,
        children_result: Seq<Seq<u8>>,
        source_buf: Seq<u8>,
    ) -> Result<Seq<u8>, Failure> {
        arbitrary()
    }

    /// Writes a tag.
    fn render_tag(
        &self,
        tag: &PomlTagNode,
        attribute_values: &[(Vec<u8>, Vec<u8>)],
        children_result: Vec<Vec<u8>>,
        source_buf: &[u8],
    ) -> (r: Result<Vec<u8>, Error>)
        ensures
            match r {
                Ok(out) => self.written(
                    tag@,
                    pairs_view(attribute_values@),
                    texts_view(children_result@),
                    source_buf@,
                ) == Ok::<Seq<u8>, Failure>(out@),
                Err(e) => self.written(
                    tag@,
                    pairs_view(attribute_values@),
                    texts_view(children_result@),
                    source_buf@,
                ) == Err::<Seq<u8>, Failure>(e.failure()),
            },
    ;
}

/// A renderer that dumps what it receives: the name, the attributes and the
/// children.
#[derive(Debug, Clone)]
pub struct TestTagRenderer {}

/// The lines `  - key: value` of the attributes from index `i` on.
pub open spec fn dump_attributes(attributes: Seq<(Seq<u8>, Seq<u8>)>, i: int) -> Seq<u8>
    decreases attributes.len() - i,
{
    if !(0 <= i < attributes.len()) {
        Seq::empty()
    } else {
        text("  - ") + attributes[i].0 + text(": ") + attributes[i].1 + text("\n")
            + dump_attributes(attributes, i + 1)
    }
}

/// The children from index `i` on, one per line.
pub open spec fn dump_children(children: Seq<Seq<u8>>, i: int) -> Seq<u8>
    decreases children.len() - i,
{
    if !(0 <= i < children.len()) {
        Seq::empty()
    } else {
        children[i] + text("\n") + dump_children(children, i + 1)
    }
}

/// The dump of a tag.
pub open spec fn dump(name: Seq<u8>, attributes: Seq<(Seq<u8>, Seq<u8>)>, children: Seq<Seq<u8>>) -> Seq<
    u8,
> {
    text("Name: ") + name + text("\n") + dump_attributes(attributes, 0) + text("=====\n")
        + dump_children(children, 0) + text("=====\n")
}

impl TagRenderer for TestTagRenderer {
    open spec fn written(
        &self,
        tag: TagView,
        attribute_values: Seq<(Seq<u8>, Seq<u8>)>,
        children_result: Seq<Seq<u8>>,
        source_buf: Seq<u8>,
    ) -> Result<Seq<u8>, Failure> {
        Ok(dump(tag.name, attribute_values, children_result))
    }

    fn render_tag(
        &self,
        tag: &PomlTagNode,
        attribute_values: &[(Vec<u8>, Vec<u8>)],
        children_result: Vec<Vec<u8>>,
        source_buf: &[u8],
    ) -> (r: Result<Vec<u8>, Error>) {
        let ghost attributes = pairs_view(attribute_values@);
        let ghost children = texts_view(children_result@);
        let mut answer: Vec<u8> = Vec::new();
        push_text(&mut answer, "Name: ");
        push_bytes(&mut answer, tag.name);
        push_text(&mut answer, "\n");
        let ghost head = answer@;
        let mut i: usize = 0;
        while i < attribute_values.len()
            invariant
                i <= attribute_values.len(),
                attributes == pairs_view(attribute_values@),
                answer@ + dump_attributes(attributes, i as int) == head + dump_attributes(
                    attributes,
                    0,
                ),
            decreases attribute_values.len() - i,
        {
            let ghost before = answer@;
            push_text(&mut answer, "  - ");
            push_bytes(&mut answer, attribute_values[i].0.as_slice());
            push_text(&mut answer, ": ");
            push_bytes(&mut answer, attribute_values[i].1.as_slice());
            push_text(&mut answer, "\n");
            proof {
                assert(answer@ + dump_attributes(attributes, i as int + 1) =~= before
                    + dump_attributes(attributes, i as int));
            }
            i = i + 1;
        }
        proof {
            assert(answer@ =~= head + dump_attributes(attributes, 0)) by {
                assert(dump_attributes(attributes, i as int) =~= Seq::<u8>::empty());
                assert(answer@ + Seq::<u8>::empty() =~= answer@);
            }
        }
        push_text(&mut answer, "=====\n");
        let ghost middle = answer@;
        let mut j: usize = 0;
        while j < children_result.len()
            invariant
                j <= children_result.len(),
                children == texts_view(children_result@),
                answer@ + dump_children(children, j as int) == middle + dump_children(children, 0),
            decreases children_result.len() - j,
        {
            let ghost before = answer@;
            push_bytes(&mut answer, children_result[j].as_slice());
            push_text(&mut answer, "\n");
            proof {
                assert(answer@ + dump_children(children, j as int + 1) =~= before + dump_children(
                    children,
                    j as int,
                ));
            }
            j = j + 1;
        }
        proof {
            assert(answer@ =~= middle + dump_children(children, 0)) by {
                assert(dump_children(children, j as int) =~= Seq::<u8>::empty());
                assert(answer@ + Seq::<u8>::empty() =~= answer@);
            }
        }
        push_text(&mut answer, "=====\n");
        proof {
            assert(answer@ =~= dump(tag@.name, attributes, children));
        }
        Ok(answer)
    }
}

} // verus!
