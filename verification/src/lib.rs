//! A parser and renderer for a small tag-based prompt markup.
//!
//! A document is a tree of tags (`<name attr="value">...</name>`), text and
//! whitespace. Rendering walks the tree, evaluates `{{ expression }}`
//! interpolations and the control attributes `if` and `for` against a stack
//! of variable scopes, and hands each tag to a pluggable tag renderer.
//!
//! The library works on bytes and holds no floating-point code: what it
//! needs of floating-point numbers and of files it asks of its caller; see
//! the module `request`.

pub mod error;
pub mod json;
pub mod nesting;
pub mod node;
pub mod parser;
pub mod render;
pub mod request;
pub mod text;
pub mod value;

pub use node::{NodeView, PomlNode, PomlNodePosition, PomlTagNode, TagView};
pub use parser::PomlParser;

use vstd::prelude::*;
use parser::skip_spaces;
use render::render_context::{assign_all, RenderContext};
use render::tag_renderer::markdown::MarkdownTagRenderer;
use render::Renderer;
use request::FactView;
use text::text;
use value::{entries_view, PomlValue};

verus! {

/// The renderer of documents into Markdown.
pub type MarkdownPomlRenderer<'a> = Renderer<'a, MarkdownTagRenderer>;

impl<'a> MarkdownPomlRenderer<'a> {
    /// A Markdown renderer of a document in a context.
    pub fn create_from_doc_and_context(doc: &'a str, context: RenderContext) -> (r: Self)
        ensures
            r.parser.wf(),
            r.parser.buf@ == text(doc),
            r.parser.pos == skip_spaces(text(doc), 0),
            r.context == context,
    {
        let parser = PomlParser::from_poml_str(doc);
        Renderer { parser, context, tag_renderer: MarkdownTagRenderer {  } }
    }

    /// A Markdown renderer of a document with the variables to render it
    /// with, which make its outermost scope.
    pub fn create_from_doc_and_variables(doc: &'a str, variables: Vec<(Vec<u8>, PomlValue)>) -> (r:
        Self)
        ensures
            r.parser.wf(),
            r.parser.buf@ == text(doc),
            r.parser.pos == skip_spaces(text(doc), 0),
            r.context@.scopes == assign_all(seq![Seq::empty()], entries_view(variables@), 0),
            r.context@.facts == Seq::<FactView>::empty(),
    {
        let context = RenderContext::from_variables(variables);
        let parser = PomlParser::from_poml_str(doc);
        Renderer { parser, context, tag_renderer: MarkdownTagRenderer {  } }
    }
}

} // verus!
