//! Attributes of captioned blocks.

use vstd::prelude::*;
use crate::render::tag_renderer::{attribute, find_attribute, pairs_view};
use crate::render::utils::{is_false_text, is_false_bytes};
use crate::text::{is_text, text};

verus! {

/// How the caption of a block is shown.
#[derive(Debug, PartialEq, Eq, Copy, Clone, Structural)]
pub enum CaptionStyle {
    /// The caption is not shown.
    Hidden,
    /// The caption is shown in bold, in front of the content.
    Bold,
    /// The caption is a header over the content.
    Header,
    /// The caption is a line of its own.
    Plain,
}

/// The caption style that the attribute `captionStyle` names; the default
/// where the attribute is missing or names none.
pub open spec fn caption_style(attributes: Seq<(Seq<u8>, Seq<u8>)>, default: CaptionStyle) -> CaptionStyle {
    match attribute(attributes, text("captionStyle")) {
        Some(v) => if v == text("hidden") {
            CaptionStyle::Hidden
        } else if v == text("bold") {
            CaptionStyle::Bold
        } else if v == text("header") {
            CaptionStyle::Header
        } else if v == text("plain") {
            CaptionStyle::Plain
        } else {
            default
        },
        None => default,
    }
}

/// Whether a colon follows the caption: as the attribute `captionColon`
/// says, where it is there; else after a plain and a bold caption only.
pub open spec fn caption_colon(attributes: Seq<(Seq<u8>, Seq<u8>)>, style: CaptionStyle) -> bool {
    match attribute(attributes, text("captionColon")) {
        Some(v) => !is_false_text(v),
        None => style == CaptionStyle::Plain || style == CaptionStyle::Bold,
    }
}

/// The caption style and whether a colon follows the caption.
pub fn get_caption_style_and_colon(
    attribute_values: &[(Vec<u8>, Vec<u8>)],
    default_style: CaptionStyle,
) -> (r: (CaptionStyle, bool))
    ensures
        r.0 == caption_style(pairs_view(attribute_values@), default_style),
        r.1 == caption_colon(pairs_view(attribute_values@), r.0),
{
    let style = get_caption_style(attribute_values, default_style);
    let colon = get_caption_colon_value(attribute_values, style);
    (style, colon)
}

/// The caption style; see `caption_style`.
pub fn get_caption_style(attribute_values: &[(Vec<u8>, Vec<u8>)], default: CaptionStyle) -> (r:
    CaptionStyle)
    ensures
        r == caption_style(pairs_view(attribute_values@), default),
{
    match find_attribute(attribute_values, "captionStyle") {
        Some(v) => {
            if is_text(v.as_slice(), "hidden") {
                CaptionStyle::Hidden
            } else if is_text(v.as_slice(), "bold") {
                CaptionStyle::Bold
            } else if is_text(v.as_slice(), "header") {
                CaptionStyle::Header
            } else if is_text(v.as_slice(), "plain") {
                CaptionStyle::Plain
            } else {
                default
            }
        },
        None => default,
    }
}

/// Whether a colon follows the caption; see `caption_colon`.
pub fn get_caption_colon_value(
    attribute_values: &[(Vec<u8>, Vec<u8>)],
    caption_style: CaptionStyle,
) -> (r: bool)
    ensures
        r == caption_colon(pairs_view(attribute_values@), caption_style),
{
    match find_attribute(attribute_values, "captionColon") {
        Some(v) => !is_false_bytes(v.as_slice()),
        None => matches!(caption_style, CaptionStyle::Plain | CaptionStyle::Bold),
    }
}

} // verus!
