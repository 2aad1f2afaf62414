//! The Markdown renderer: what each tag looks like in Markdown.

use vstd::prelude::*;
use vstd::slice::slice_subrange;
use crate::error::{Error, ErrorKind, Failure};
use crate::node::{PomlNode, PomlTagNode, TagView};
use crate::render::tag_renderer::attribute_utils::{
    caption_colon, caption_style, get_caption_style_and_colon, CaptionStyle,
};
use crate::render::tag_renderer::{attribute, find_attribute, pairs_view, TagRenderer};
use crate::render::utils::{
    buf_match, find_bytes, find_from, is_false_text, is_false_bytes, join_all, join_bytes,
    matches_at, texts_view,
};
use crate::text::{decimal, is_text, push_bytes, push_decimal, push_text, text};

verus! {

/// The renderer of Markdown output.
#[derive(Debug, Clone)]
pub struct MarkdownTagRenderer {}

/// A refusal by the renderer.
pub open spec fn unwritten<T>() -> Result<T, Failure> {
    Err(Failure::Rejected(ErrorKind::RendererError))
}

fn refuse<T>(message: &str) -> (r: Result<T, Error>)
    ensures
        r is Err,
        r->Err_0.rejects(ErrorKind::RendererError),
{
    Err(Error::fixed(ErrorKind::RendererError, message))
}

// ---------------------------------------------------------------------------
// The model
// ---------------------------------------------------------------------------

/// `acc` followed by the children of the root from index `i` on that are no
/// whitespace.
pub open spec fn poml_from(tag: TagView, children: Seq<Seq<u8>>, i: int, acc: Seq<u8>) -> Seq<u8>
    decreases children.len() - i,
{
    if !(0 <= i < children.len() && i < tag.children.len()) {
        acc
    } else if tag.children[i] is Whitespace {
        poml_from(tag, children, i + 1, acc)
    } else {
        poml_from(tag, children, i + 1, acc + children[i])
    }
}

/// The root: its children that are no whitespace, joined. A number of
/// results that is not the number of children is refused.
pub open spec fn md_poml(tag: TagView, children: Seq<Seq<u8>>) -> Result<Seq<u8>, Failure> {
    if tag.children.len() != children.len() {
        unwritten()
    } else {
        Ok(poml_from(tag, children, 0, Seq::empty()))
    }
}

/// The children between an opening and a closing mark.
pub open spec fn md_wrap(open: Seq<u8>, children: Seq<Seq<u8>>, close: Seq<u8>) -> Seq<u8> {
    open + join_all(children) + close
}

/// `acc` followed by the children from index `i` on, each header among
/// them one level deeper: a child that starts with `#` gets one more `#`.
pub open spec fn releveled(children: Seq<Seq<u8>>, i: int, acc: Seq<u8>) -> Seq<u8>
    decreases children.len() - i,
{
    if !(0 <= i < children.len()) {
        acc
    } else if children[i].len() > 0 && children[i][0] == '#' as u8 {
        releveled(children, i + 1, acc + text("#") + children[i])
    } else {
        releveled(children, i + 1, acc + children[i])
    }
}

/// `acc` followed by the text from `i` on with a tab after every line feed.
pub open spec fn indented(raw: Seq<u8>, i: int, acc: Seq<u8>) -> Seq<u8>
    decreases raw.len() - i,
{
    if !(0 <= i < raw.len()) {
        acc
    } else if raw[i] == '\n' as u8 {
        indented(raw, i + 1, acc + text("\n\t"))
    } else {
        indented(raw, i + 1, acc.push(raw[i]))
    }
}

/// An item of a list: its content, every line after the first indented by
/// a tab, and a line feed.
pub open spec fn md_item(children: Seq<Seq<u8>>) -> Seq<u8> {
    indented(join_all(children), 0, Seq::empty()) + text("\n")
}

/// A caption with its colon, if it has one.
pub open spec fn captioned(caption: Seq<u8>, colon: bool) -> Seq<u8> {
    if colon {
        caption + text(":")
    } else {
        caption
    }
}

/// A captioned block: under a header, the content one level deeper; after
/// a bold caption, on the same line; after a plain caption, two lines
/// below; without its caption where that is hidden.
pub open spec fn md_captioned(
    style: CaptionStyle,
    colon: bool,
    caption: Seq<u8>,
    children: Seq<Seq<u8>>,
) -> Seq<u8> {
    match style {
        CaptionStyle::Header => releveled(
            children,
            0,
            text("# ") + captioned(caption, colon) + text("\n\n"),
        ),
        CaptionStyle::Bold => text("**") + captioned(caption, colon) + text("** ") + join_all(
            children,
        ) + text("\n"),
        CaptionStyle::Plain => captioned(caption, colon) + text("\n\n") + join_all(children)
            + text("\n"),
        CaptionStyle::Hidden => join_all(children) + text("\n"),
    }
}

/// A captioned block whose caption is fixed, with the default style of the
/// tag.
pub open spec fn md_block(
    title: Seq<u8>,
    default: CaptionStyle,
    attributes: Seq<(Seq<u8>, Seq<u8>)>,
    children: Seq<Seq<u8>>,
) -> Seq<u8> {
    let style = caption_style(attributes, default);
    md_captioned(style, caption_colon(attributes, style), title, children)
}

/// A captioned paragraph: its caption is the attribute `caption`, which it
/// has to have.
pub open spec fn md_captioned_paragraph(attributes: Seq<(Seq<u8>, Seq<u8>)>, children: Seq<Seq<u8>>) -> Result<
    Seq<u8>,
    Failure,
> {
    match attribute(attributes, text("caption")) {
        None => unwritten(),
        Some(caption) => Ok(md_block(caption, CaptionStyle::Header, attributes, children)),
    }
}

/// The last position at or before `i` at which `pattern` stands.
pub open spec fn find_back(buf: Seq<u8>, pattern: Seq<u8>, i: int) -> Option<int>
    decreases i + 1,
{
    if i < 0 {
        None
    } else if matches_at(buf, i, pattern) {
        Some(i)
    } else {
        find_back(buf, pattern, i - 1)
    }
}

/// Whether the attributes from index `i` on ask for inline code, given
/// what those before asked: an `inline` that does not stand for false does.
pub open spec fn code_inline(attributes: Seq<(Seq<u8>, Seq<u8>)>, i: int, acc: bool) -> bool
    decreases attributes.len() - i,
{
    if !(0 <= i < attributes.len()) {
        acc
    } else {
        code_inline(
            attributes,
            i + 1,
            acc || (attributes[i].0 == text("inline") && !is_false_text(attributes[i].1)),
        )
    }
}

/// The language that the attributes from index `i` on name: the value of
/// the last `lang`.
pub open spec fn code_lang(attributes: Seq<(Seq<u8>, Seq<u8>)>, i: int, acc: Option<Seq<u8>>) -> Option<
    Seq<u8>,
>
    decreases attributes.len() - i,
{
    if !(0 <= i < attributes.len()) {
        acc
    } else {
        code_lang(
            attributes,
            i + 1,
            if attributes[i].0 == text("lang") {
                Some(attributes[i].1)
            } else {
                acc
            },
        )
    }
}

/// What stands in the source between the opening tag and the closing tag
/// of an element: from after the first `>` to the last `</`. `None` where
/// the span lies outside the source or holds no such pair.
pub open spec fn code_content(tag: TagView, source: Seq<u8>) -> Option<Seq<u8>> {
    let start = tag.original_pos.start as int;
    let end = tag.original_pos.end as int;
    if !(start <= end <= source.len()) {
        None
    } else {
        let tag_code = source.subrange(start, end);
        match (
            find_from(tag_code, text(">"), 0),
            find_back(tag_code, text("</"), tag_code.len() - text("</").len()),
        ) {
            (Some(gt), Some(code_end)) => if 0 <= gt + 1 <= code_end <= tag_code.len() {
                Some(tag_code.subrange(gt + 1, code_end))
            } else {
                None
            },
            _ => None,
        }
    }
}

/// Code: the content of the element as it stands in the source, between
/// backquotes where it is inline and in a fenced block where not.
pub open spec fn md_code(tag: TagView, attributes: Seq<(Seq<u8>, Seq<u8>)>, source: Seq<u8>) -> Result<
    Seq<u8>,
    Failure,
> {
    match code_content(tag, source) {
        None => unwritten(),
        Some(content) => if code_inline(attributes, 0, false) {
            Ok(text("`") + content + text("`"))
        } else {
            let header = match code_lang(attributes, 0, None) {
                Some(lang) => text("```") + lang + text("\n"),
                None => text("```\n"),
            };
            Ok(header + content + text("\n```"))
        },
    }
}

/// The mark of the item with the given number under a list style; `None`
/// for a style that is none of `dash`, `star`, `plus` and `decimal`.
pub open spec fn list_mark(style: Seq<u8>, number: int) -> Option<Seq<u8>> {
    if style == text("dash") {
        Some(text("- "))
    } else if style == text("star") {
        Some(text("* "))
    } else if style == text("plus") {
        Some(text("+ "))
    } else if style == text("decimal") {
        Some(decimal(number as nat) + text(". "))
    } else {
        None
    }
}

/// The end of the line that starts at `pos`: the position of the next line
/// feed, or the end of the text.
pub open spec fn line_end(s: Seq<u8>, pos: int) -> int
    decreases s.len() - pos,
{
    if 0 <= pos < s.len() && s[pos] != '\n' as u8 {
        line_end(s, pos + 1)
    } else {
        pos
    }
}

/// `acc` followed by the lines of an item from `pos` on, and the number of
/// marks given so far. An empty line stays empty; a line that starts with a
/// tab continues the item before it; every other line is an item and gets
/// the next mark.
pub open spec fn list_lines(s: Seq<u8>, pos: int, counter: int, acc: Seq<u8>, style: Seq<u8>) -> Result<
    (Seq<u8>, int),
    Failure,
>
    decreases s.len() - pos,
{
    let end = line_end(s, pos);
    if !(0 <= pos <= end <= s.len()) {
        Ok((acc, counter))
    } else {
        let line = s.subrange(pos, end);
        let step = if line.len() == 0 {
            Ok((acc + text("\n"), counter))
        } else if line[0] == '\t' as u8 {
            Ok((acc + line + text("\n"), counter))
        } else if counter >= usize::MAX {
            unwritten()
        } else {
            match list_mark(style, counter + 1) {
                None => unwritten(),
                Some(mark) => Ok((acc + mark + line + text("\n"), counter + 1)),
            }
        };
        match step {
            Err(f) => Err(f),
            Ok((next, count)) => if end < s.len() {
                list_lines(s, end + 1, count, next, style)
            } else {
                Ok((next, count))
            },
        }
    }
}

/// `acc` followed by the items of a list from the child `i` on. Children
/// that are no `item` tags are left out.
pub open spec fn list_items(
    tag: TagView,
    children: Seq<Seq<u8>>,
    i: int,
    counter: int,
    acc: Seq<u8>,
    style: Seq<u8>,
) -> Result<Seq<u8>, Failure>
    decreases children.len() - i,
{
    if !(0 <= i < children.len() && i < tag.children.len()) {
        Ok(acc)
    } else if tag.children[i] is Tag && tag.children[i]->Tag_0.name == text("item") {
        match list_lines(children[i], 0, counter, acc, style) {
            Err(f) => Err(f),
            Ok((next, count)) => list_items(tag, children, i + 1, count, next, style),
        }
    } else {
        list_items(tag, children, i + 1, counter, acc, style)
    }
}

/// A list: its items, each line of them marked after the attribute
/// `listStyle`, which is `dash` where it is missing.
pub open spec fn md_list(tag: TagView, attributes: Seq<(Seq<u8>, Seq<u8>)>, children: Seq<Seq<u8>>) -> Result<
    Seq<u8>,
    Failure,
> {
    if tag.children.len() != children.len() {
        unwritten()
    } else {
        let style = match attribute(attributes, text("listStyle")) {
            Some(v) => v,
            None => text("dash"),
        };
        list_items(tag, children, 0, 0, Seq::empty(), style)
    }
}

/// What the Markdown renderer writes for a tag.
pub open spec fn markdown(
    tag: TagView,
    attributes: Seq<(Seq<u8>, Seq<u8>)>,
    children: Seq<Seq<u8>>,
    source: Seq<u8>,
) -> Result<Seq<u8>, Failure> {
    let name = tag.name;
    if name == text("poml") {
        md_poml(tag, children)
    } else if name == text("p") {
        Ok(md_wrap(Seq::empty(), children, text("\n\n")))
    } else if name == text("br") {
        Ok(text("\n\n"))
    } else if name == text("b") {
        Ok(md_wrap(text("**"), children, text("**")))
    } else if name == text("i") {
        Ok(md_wrap(text("*"), children, text("*")))
    } else if name == text("s") || name == text("strike") {
        Ok(md_wrap(text("~~"), children, text("~~")))
    } else if name == text("code") {
        md_code(tag, attributes, source)
    } else if name == text("h") {
        Ok(md_wrap(text("# "), children, text("\n\n")))
    } else if name == text("section") {
        Ok(releveled(children, 0, Seq::empty()))
    } else if name == text("cp") {
        md_captioned_paragraph(attributes, children)
    } else if name == text("role") {
        Ok(md_block(text("Role"), CaptionStyle::Header, attributes, children))
    } else if name == text("task") {
        Ok(md_block(text("Task"), CaptionStyle::Header, attributes, children))
    } else if name == text("output-format") {
        Ok(md_block(text("Output Format"), CaptionStyle::Header, attributes, children))
    } else if name == text("examples") {
        Ok(md_block(text("Examples"), CaptionStyle::Header, attributes, children))
    } else if name == text("example") {
        Ok(md_block(text("Example"), CaptionStyle::Hidden, attributes, children))
    } else if name == text("input") {
        Ok(md_block(text("Input"), CaptionStyle::Hidden, attributes, children))
    } else if name == text("output") {
        Ok(md_block(text("Output"), CaptionStyle::Hidden, attributes, children))
    } else if name == text("hint") {
        Ok(md_block(text("Hint"), CaptionStyle::Bold, attributes, children))
    } else if name == text("stepwise-instructions") {
        Ok(md_block(text("Stepwise Instructions"), CaptionStyle::Header, attributes, children))
    } else if name == text("meta") {
        Ok(Seq::empty())
    } else if name == text("item") {
        Ok(md_item(children))
    } else if name == text("list") {
        md_list(tag, attributes, children)
    } else {
        unwritten()
    }
}

// ---------------------------------------------------------------------------
// The renderer
// ---------------------------------------------------------------------------

impl TagRenderer for MarkdownTagRenderer {
    open spec fn written(
        &self,
        tag: TagView,
        attribute_values: Seq<(Seq<u8>, Seq<u8>)>,
        children_result: Seq<Seq<u8>>,
        source_buf: Seq<u8>,
    ) -> Result<Seq<u8>, Failure> {
        markdown(tag, attribute_values, children_result, source_buf)
    }

    fn render_tag(
        &self,
        tag: &PomlTagNode,
        attribute_values: &[(Vec<u8>, Vec<u8>)],
        children_result: Vec<Vec<u8>>,
        source_buf: &[u8],
    ) -> (r: Result<Vec<u8>, Error>) {
        let name = tag.name;
        if is_text(name, "poml") {
            self.render_poml_tag(tag, &children_result)
        } else if is_text(name, "p") {
            Ok(self.render_p_tag(&children_result))
        } else if is_text(name, "br") {
            Ok(self.render_br_tag())
        } else if is_text(name, "b") {
            Ok(self.render_bold_tag(&children_result))
        } else if is_text(name, "i") {
            Ok(self.render_italic_tag(&children_result))
        } else if is_text(name, "s") || is_text(name, "strike") {
            Ok(self.render_strikethrough_tag(&children_result))
        } else if is_text(name, "code") {
            self.render_code_tag(tag, attribute_values, source_buf)
        } else if is_text(name, "h") {
            Ok(self.render_header_tag(&children_result))
        } else if is_text(name, "section") {
            Ok(self.render_section_tag(&children_result))
        } else if is_text(name, "cp") {
            self.render_captioned_paragraph_tag(attribute_values, &children_result)
        } else if is_text(name, "role") {
            Ok(self.render_intention_block_tag("Role", attribute_values, &children_result))
        } else if is_text(name, "task") {
            Ok(self.render_intention_block_tag("Task", attribute_values, &children_result))
        } else if is_text(name, "output-format") {
            Ok(
                self.render_intention_block_tag(
                    "Output Format",
                    attribute_values,
                    &children_result,
                ),
            )
        } else if is_text(name, "examples") {
            Ok(self.render_intention_block_tag("Examples", attribute_values, &children_result))
        } else if is_text(name, "example") {
            Ok(
                self.render_title_default_hidden_block_tag(
                    "Example",
                    attribute_values,
                    &children_result,
                ),
            )
        } else if is_text(name, "input") {
            Ok(
                self.render_title_default_hidden_block_tag(
                    "Input",
                    attribute_values,
                    &children_result,
                ),
            )
        } else if is_text(name, "output") {
            Ok(
                self.render_title_default_hidden_block_tag(
                    "Output",
                    attribute_values,
                    &children_result,
                ),
            )
        } else if is_text(name, "hint") {
            Ok(
                self.render_title_default_bold_block_tag(
                    "Hint",
                    attribute_values,
                    &children_result,
                ),
            )
        } else if is_text(name, "stepwise-instructions") {
            Ok(
                self.render_intention_block_tag(
                    "Stepwise Instructions",
                    attribute_values,
                    &children_result,
                ),
            )
        } else if is_text(name, "meta") {
            Ok(Vec::new())
        } else if is_text(name, "item") {
            Ok(self.render_item_tag(&children_result))
        } else if is_text(name, "list") {
            self.render_list_tag(tag, attribute_values, &children_result)
        } else {
            Err(Error::about(ErrorKind::RendererError, "Unknown tag: <", name, ">"))
        }
    }
}

/// The last position at which `pattern` stands in `buf`.
pub fn find_last(buf: &[u8], pattern: &[u8]) -> (r: Option<usize>)
    ensures
        match r {
            Some(e) => find_back(buf@, pattern@, buf@.len() - pattern@.len()) == Some(e as int)
                && e + pattern@.len() <= buf@.len(),
            None => find_back(buf@, pattern@, buf@.len() - pattern@.len()) is None,
        },
{
    if pattern.len() > buf.len() {
        return None;
    }
    let mut i: usize = buf.len() - pattern.len();
    loop
        invariant
            i + pattern@.len() <= buf@.len(),
            find_back(buf@, pattern@, buf@.len() - pattern@.len()) == find_back(
                buf@,
                pattern@,
                i as int,
            ),
        decreases i,
    {
        if buf_match(buf, i, pattern) {
            return Some(i);
        }
        if i == 0 {
            proof {
                assert(find_back(buf@, pattern@, -1) is None);
            }
            return None;
        }
        i = i - 1;
    }
}

impl MarkdownTagRenderer {
    /// The root; see `md_poml`.
    pub fn render_poml_tag(&self, poml_tag: &PomlTagNode, children_result: &Vec<Vec<u8>>) -> (r:
        Result<Vec<u8>, Error>)
        ensures
            match r {
                Ok(out) => md_poml(poml_tag@, texts_view(children_result@)) == Ok::<
                    Seq<u8>,
                    Failure,
                >(out@),
                Err(e) => md_poml(poml_tag@, texts_view(children_result@)) == Err::<
                    Seq<u8>,
                    Failure,
                >(e.failure()),
            },
    {
        let ghost tag = poml_tag@;
        let ghost children = texts_view(children_result@);
        if poml_tag.children.len() != children_result.len() {
            return refuse("Missing children result in rendering <poml>.");
        }
        let mut answer: Vec<u8> = Vec::new();
        let mut i: usize = 0;
        while i < poml_tag.children.len()
            invariant
                i <= poml_tag.children.len(),
                poml_tag.children.len() == children_result.len(),
                tag == poml_tag@,
                children == texts_view(children_result@),
                poml_from(tag, children, 0, Seq::empty()) == poml_from(
                    tag,
                    children,
                    i as int,
                    answer@,
                ),
            decreases poml_tag.children.len() - i,
        {
            assert(tag.children[i as int] == poml_tag.children[i as int]@);
            if !poml_tag.children[i].is_whitespace() {
                push_bytes(&mut answer, children_result[i].as_slice());
            }
            i = i + 1;
        }
        Ok(answer)
    }

    fn wrap(&self, open: &str, children_result: &Vec<Vec<u8>>, close: &str) -> (r: Vec<u8>)
        ensures
            r@ == md_wrap(text(open), texts_view(children_result@), text(close)),
    {
        let mut answer: Vec<u8> = Vec::new();
        push_text(&mut answer, open);
        let joined = join_bytes(children_result);
        push_bytes(&mut answer, joined.as_slice());
        push_text(&mut answer, close);
        proof {
            assert(answer@ =~= md_wrap(text(open), texts_view(children_result@), text(close)));
        }
        answer
    }

    /// A paragraph: its content and an empty line.
    pub fn render_p_tag(&self, children_result: &Vec<Vec<u8>>) -> (r: Vec<u8>)
        ensures
            r@ == md_wrap(Seq::empty(), texts_view(children_result@), text("\n\n")),
    {
        let mut answer = join_bytes(children_result);
        push_text(&mut answer, "\n\n");
        proof {
            assert(answer@ =~= md_wrap(
                Seq::empty(),
                texts_view(children_result@),
                text("\n\n"),
            ));
        }
        answer
    }

    /// A break: an empty line.
    pub fn render_br_tag(&self) -> (r: Vec<u8>)
        ensures
            r@ == text("\n\n"),
    {
        let mut answer: Vec<u8> = Vec::new();
        push_text(&mut answer, "\n\n");
        proof {
            assert(answer@ =~= text("\n\n"));
        }
        answer
    }

    /// Bold text.
    pub fn render_bold_tag(&self, children_result: &Vec<Vec<u8>>) -> (r: Vec<u8>)
        ensures
            r@ == md_wrap(text("**"), texts_view(children_result@), text("**")),
    {
        self.wrap("**", children_result, "**")
    }

    /// Italic text.
    pub fn render_italic_tag(&self, children_result: &Vec<Vec<u8>>) -> (r: Vec<u8>)
        ensures
            r@ == md_wrap(text("*"), texts_view(children_result@), text("*")),
    {
        self.wrap("*", children_result, "*")
    }

    /// Struck-through text.
    pub fn render_strikethrough_tag(&self, children_result: &Vec<Vec<u8>>) -> (r: Vec<u8>)
        ensures
            r@ == md_wrap(text("~~"), texts_view(children_result@), text("~~")),
    {
        self.wrap("~~", children_result, "~~")
    }

    /// A header of the first level.
    pub fn render_header_tag(&self, children_result: &Vec<Vec<u8>>) -> (r: Vec<u8>)
        ensures
            r@ == md_wrap(text("# "), texts_view(children_result@), text("\n\n")),
    {
        self.wrap("# ", children_result, "\n\n")
    }

    /// Code; see `md_code`.
    #[verifier::loop_isolation(false)]
    pub fn render_code_tag(
        &self,
        tag: &PomlTagNode,
        attribute_values: &[(Vec<u8>, Vec<u8>)],
        source_buf: &[u8],
    ) -> (r: Result<Vec<u8>, Error>)
        ensures
            match r {
                Ok(out) => md_code(tag@, pairs_view(attribute_values@), source_buf@) == Ok::<
                    Seq<u8>,
                    Failure,
                >(out@),
                Err(e) => md_code(tag@, pairs_view(attribute_values@), source_buf@) == Err::<
                    Seq<u8>,
                    Failure,
                >(e.failure()),
            },
    {
        let ghost attributes = pairs_view(attribute_values@);
        let start = tag.original_pos.start;
        let end = tag.original_pos.end;
        if start > end || end > source_buf.len() {
            return refuse("The span of a <code> tag lies outside the document.");
        }
        let tag_code = slice_subrange(source_buf, start, end);
        let gt = match find_bytes(tag_code, ">".as_bytes(), 0) {
            Some(i) => i,
            None => {
                return refuse("A <code> tag has no content.");
            },
        };
        let code_end = match find_last(tag_code, "</".as_bytes()) {
            Some(e) => e,
            None => {
                return refuse("A <code> tag has no content.");
            },
        };
        if gt >= code_end {
            return refuse("A <code> tag has no content.");
        }
        let code_content = slice_subrange(tag_code, gt + 1, code_end);
        let mut inline = false;
        let mut lang: Option<&Vec<u8>> = None;
        let mut k: usize = 0;
        while k < attribute_values.len()
            invariant
                k <= attribute_values.len(),
                code_inline(attributes, 0, false) == code_inline(attributes, k as int, inline),
                code_lang(attributes, 0, None) == code_lang(
                    attributes,
                    k as int,
                    match lang {
                        Some(l) => Some(l@),
                        None => None,
                    },
                ),
            decreases attribute_values.len() - k,
        {
            assert(attributes[k as int] == (attribute_values@[k as int].0@, attribute_values@[k as int].1@));
            if is_text(attribute_values[k].0.as_slice(), "inline") {
                if !is_false_bytes(attribute_values[k].1.as_slice()) {
                    inline = true;
                }
            }
            if is_text(attribute_values[k].0.as_slice(), "lang") {
                lang = Some(&attribute_values[k].1);
            }
            k = k + 1;
        }
        let mut answer: Vec<u8> = Vec::new();
        if inline {
            push_text(&mut answer, "`");
            push_bytes(&mut answer, code_content);
            push_text(&mut answer, "`");
            proof {
                assert(answer@ =~= text("`") + code_content@ + text("`"));
            }
        } else {
            match lang {
                Some(l) => {
                    push_text(&mut answer, "```");
                    push_bytes(&mut answer, l.as_slice());
                    push_text(&mut answer, "\n");
                    push_bytes(&mut answer, code_content);
                    push_text(&mut answer, "\n```");
                    proof {
                        assert(answer@ =~= text("```") + l@ + text("\n") + code_content@ + text(
                            "\n```",
                        ));
                    }
                },
                None => {
                    push_text(&mut answer, "```\n");
                    push_bytes(&mut answer, code_content);
                    push_text(&mut answer, "\n```");
                    proof {
                        assert(answer@ =~= text("```\n") + code_content@ + text("\n```"));
                    }
                },
            }
        }
        Ok(answer)
    }

    /// A block whose caption is a header by default.
    pub fn render_intention_block_tag(
        &self,
        title: &str,
        attribute_values: &[(Vec<u8>, Vec<u8>)],
        children_result: &Vec<Vec<u8>>,
    ) -> (r: Vec<u8>)
        ensures
            r@ == md_block(
                text(title),
                CaptionStyle::Header,
                pairs_view(attribute_values@),
                texts_view(children_result@),
            ),
    {
        let (style, colon) = get_caption_style_and_colon(attribute_values, CaptionStyle::Header);
        self.render_captioned_component(style, colon, title.as_bytes(), children_result)
    }

    /// A block whose caption is hidden by default.
    pub fn render_title_default_hidden_block_tag(
        &self,
        title: &str,
        attribute_values: &[(Vec<u8>, Vec<u8>)],
        children_result: &Vec<Vec<u8>>,
    ) -> (r: Vec<u8>)
        ensures
            r@ == md_block(
                text(title),
                CaptionStyle::Hidden,
                pairs_view(attribute_values@),
                texts_view(children_result@),
            ),
    {
        let (style, colon) = get_caption_style_and_colon(attribute_values, CaptionStyle::Hidden);
        self.render_captioned_component(style, colon, title.as_bytes(), children_result)
    }

    /// A block whose caption is bold by default.
    pub fn render_title_default_bold_block_tag(
        &self,
        title: &str,
        attribute_values: &[(Vec<u8>, Vec<u8>)],
        children_result: &Vec<Vec<u8>>,
    ) -> (r: Vec<u8>)
        ensures
            r@ == md_block(
                text(title),
                CaptionStyle::Bold,
                pairs_view(attribute_values@),
                texts_view(children_result@),
            ),
    {
        let (style, colon) = get_caption_style_and_colon(attribute_values, CaptionStyle::Bold);
        self.render_captioned_component(style, colon, title.as_bytes(), children_result)
    }

    fn relevel(&self, answer: &mut Vec<u8>, children_result: &Vec<Vec<u8>>)
        ensures
            final(answer)@ == releveled(texts_view(children_result@), 0, old(answer)@),
    {
        let ghost children = texts_view(children_result@);
        let mut i: usize = 0;
        while i < children_result.len()
            invariant
                i <= children_result.len(),
                children == texts_view(children_result@),
                releveled(children, 0, old(answer)@) == releveled(children, i as int, answer@),
            decreases children_result.len() - i,
        {
            let child = &children_result[i];
            if child.len() > 0 && child[0] == '#' as u8 {
                push_text(answer, "#");
            }
            push_bytes(answer, child.as_slice());
            i = i + 1;
        }
    }

    /// A section: its content with every header one level deeper.
    pub fn render_section_tag(&self, children_result: &Vec<Vec<u8>>) -> (r: Vec<u8>)
        ensures
            r@ == releveled(texts_view(children_result@), 0, Seq::empty()),
    {
        let mut answer: Vec<u8> = Vec::new();
        self.relevel(&mut answer, children_result);
        answer
    }

    /// A captioned paragraph; see `md_captioned_paragraph`.
    pub fn render_captioned_paragraph_tag(
        &self,
        attribute_values: &[(Vec<u8>, Vec<u8>)],
        children_result: &Vec<Vec<u8>>,
    ) -> (r: Result<Vec<u8>, Error>)
        ensures
            match r {
                Ok(out) => md_captioned_paragraph(
                    pairs_view(attribute_values@),
                    texts_view(children_result@),
                ) == Ok::<Seq<u8>, Failure>(out@),
                Err(e) => md_captioned_paragraph(
                    pairs_view(attribute_values@),
                    texts_view(children_result@),
                ) == Err::<Seq<u8>, Failure>(e.failure()),
            },
    {
        let caption = match find_attribute(attribute_values, "caption") {
            Some(caption) => caption,
            None => {
                return refuse("Missing `caption` attribute for the <cp> tag.");
            },
        };
        let (style, colon) = get_caption_style_and_colon(attribute_values, CaptionStyle::Header);
        Ok(self.render_captioned_component(style, colon, caption.as_slice(), children_result))
    }

    /// An item of a list; see `md_item`.
    pub fn render_item_tag(&self, children_result: &Vec<Vec<u8>>) -> (r: Vec<u8>)
        ensures
            r@ == md_item(texts_view(children_result@)),
    {
        let raw_content = join_bytes(children_result);
        let mut new_content: Vec<u8> = Vec::new();
        let mut i: usize = 0;
        while i < raw_content.len()
            invariant
                i <= raw_content.len(),
                indented(raw_content@, 0, Seq::empty()) == indented(
                    raw_content@,
                    i as int,
                    new_content@,
                ),
            decreases raw_content.len() - i,
        {
            if raw_content[i] == '\n' as u8 {
                push_text(&mut new_content, "\n\t");
            } else {
                new_content.push(raw_content[i]);
            }
            i = i + 1;
        }
        push_text(&mut new_content, "\n");
        new_content
    }

    /// A list; see `md_list`.
    #[verifier::loop_isolation(false)]
    pub fn render_list_tag(
        &self,
        tag: &PomlTagNode,
        attribute_values: &[(Vec<u8>, Vec<u8>)],
        children_result: &Vec<Vec<u8>>,
    ) -> (r: Result<Vec<u8>, Error>)
        ensures
            match r {
                Ok(out) => md_list(
                    tag@,
                    pairs_view(attribute_values@),
                    texts_view(children_result@),
                ) == Ok::<Seq<u8>, Failure>(out@),
                Err(e) => md_list(
                    tag@,
                    pairs_view(attribute_values@),
                    texts_view(children_result@),
                ) == Err::<Seq<u8>, Failure>(e.failure()),
            },
    {
        let ghost model = tag@;
        let ghost children = texts_view(children_result@);
        if tag.children.len() != children_result.len() {
            return refuse("Missing children result in rendering <list>.");
        }
        let dash = "dash".as_bytes();
        let list_style: &[u8] = match find_attribute(attribute_values, "listStyle") {
            Some(v) => v.as_slice(),
            None => dash,
        };
        let mut answer: Vec<u8> = Vec::new();
        let mut item_counter: usize = 0;
        let mut i: usize = 0;
        while i < tag.children.len()
            invariant
                i <= tag.children.len(),
                list_items(model, children, 0, 0, Seq::empty(), list_style@) == list_items(
                    model,
                    children,
                    i as int,
                    item_counter as int,
                    answer@,
                    list_style@,
                ),
            decreases tag.children.len() - i,
        {
            assert(model.children[i as int] == tag.children[i as int]@);
            let is_item = match &tag.children[i] {
                PomlNode::Tag(tag_node) => is_text(tag_node.name, "item"),
                _ => false,
            };
            if is_item {
                let content = children_result[i].as_slice();
                let ghost s = content@;
                let ghost counter0 = item_counter as int;
                let ghost acc0 = answer@;
                let mut pos: usize = 0;
                let mut done = false;
                while !done
                    invariant
                        pos <= content.len(),
                        s == content@,
                        !done ==> list_lines(s, 0, counter0, acc0, list_style@) == list_lines(
                            s,
                            pos as int,
                            item_counter as int,
                            answer@,
                            list_style@,
                        ),
                        done ==> list_lines(s, 0, counter0, acc0, list_style@) == Ok::<
                            (Seq<u8>, int),
                            Failure,
                        >((answer@, item_counter as int)),
                    decreases content.len() - pos + (if done { 0int } else { 1int }),
                {
                    let mut end = pos;
                    while end < content.len() && content[end] != '\n' as u8
                        invariant
                            pos <= end <= content.len(),
                            line_end(s, pos as int) == line_end(s, end as int),
                        decreases content.len() - end,
                    {
                        end = end + 1;
                    }
                    let line = slice_subrange(content, pos, end);
                    let ghost before = answer@;
                    let ghost count_before = item_counter as int;
                    assert(end as int == line_end(s, pos as int));
                    if line.len() == 0 {
                        push_text(&mut answer, "\n");
                    } else if line[0] == '\t' as u8 {
                        push_bytes(&mut answer, line);
                        push_text(&mut answer, "\n");
                        proof {
                            assert(answer@ =~= before + line@ + text("\n"));
                        }
                    } else {
                        if item_counter == usize::MAX {
                            return refuse("Too many items in a list.");
                        }
                        let number = item_counter + 1;
                        if is_text(list_style, "dash") {
                            push_text(&mut answer, "- ");
                        } else if is_text(list_style, "star") {
                            push_text(&mut answer, "* ");
                        } else if is_text(list_style, "plus") {
                            push_text(&mut answer, "+ ");
                        } else if is_text(list_style, "decimal") {
                            push_decimal(&mut answer, number);
                            push_text(&mut answer, ". ");
                        } else {
                            return Err(
                                Error::about(
                                    ErrorKind::RendererError,
                                    "Unknown list style: ",
                                    list_style,
                                    "",
                                ),
                            );
                        }
                        let ghost mark = list_mark(list_style@, number as int)->Some_0;
                        proof {
                            assert(answer@ =~= before + mark);
                        }
                        item_counter = number;
                        push_bytes(&mut answer, line);
                        push_text(&mut answer, "\n");
                        proof {
                            assert(answer@ =~= before + mark + line@ + text("\n"));
                        }
                    }
                    if end < content.len() {
                        pos = end + 1;
                    } else {
                        done = true;
                    }
                }
            }
            i = i + 1;
        }
        Ok(answer)
    }

    /// A captioned block; see `md_captioned`.
    pub fn render_captioned_component(
        &self,
        style: CaptionStyle,
        colon: bool,
        caption_text: &[u8],
        children_result: &Vec<Vec<u8>>,
    ) -> (r: Vec<u8>)
        ensures
            r@ == md_captioned(style, colon, caption_text@, texts_view(children_result@)),
    {
        let mut answer: Vec<u8> = Vec::new();
        match style {
            CaptionStyle::Header => {
                push_text(&mut answer, "# ");
                push_bytes(&mut answer, caption_text);
                if colon {
                    push_text(&mut answer, ":");
                }
                push_text(&mut answer, "\n\n");
                proof {
                    assert(answer@ =~= text("# ") + captioned(caption_text@, colon) + text("\n\n"));
                }
                self.relevel(&mut answer, children_result);
            },
            CaptionStyle::Bold => {
                push_text(&mut answer, "**");
                push_bytes(&mut answer, caption_text);
                if colon {
                    push_text(&mut answer, ":");
                }
                push_text(&mut answer, "** ");
                let joined = join_bytes(children_result);
                push_bytes(&mut answer, joined.as_slice());
                push_text(&mut answer, "\n");
                proof {
                    assert(answer@ =~= md_captioned(
                        style,
                        colon,
                        caption_text@,
                        texts_view(children_result@),
                    ));
                }
            },
            CaptionStyle::Plain => {
                push_bytes(&mut answer, caption_text);
                if colon {
                    push_text(&mut answer, ":");
                }
                push_text(&mut answer, "\n\n");
                let joined = join_bytes(children_result);
                push_bytes(&mut answer, joined.as_slice());
                push_text(&mut answer, "\n");
                proof {
                    assert(answer@ =~= md_captioned(
                        style,
                        colon,
                        caption_text@,
                        texts_view(children_result@),
                    ));
                }
            },
            CaptionStyle::Hidden => {
                let joined = join_bytes(children_result);
                push_bytes(&mut answer, joined.as_slice());
                push_text(&mut answer, "\n");
                proof {
                    assert(answer@ =~= md_captioned(
                        style,
                        colon,
                        caption_text@,
                        texts_view(children_result@),
                    ));
                }
            },
        }
        answer
    }
}

} // verus!
