//! Trusted boundary to the primitive tokenizer.
//!
//! pulldown_cmark turns the source text into primitive events with byte
//! ranges; the result is a fixed function of the text alone, named
//! [`prim_events_of`].  The conversion helpers carry each tokenizer variant
//! over to the library's primitive event model field for field.

use vstd::prelude::*;

use pulldown_cmark as cm;
use pulldown_cmark::Event as CmEvent;
use pulldown_cmark::CodeBlockKind as CbKind;
use pulldown_cmark::Tag as CmTag;

use crate::events::CellAlignment;
use crate::prim::{Prim, PrimEvent, PrimTag};

verus! {

#[verifier::external_type_specification]
#[verifier::external_body]
pub struct ExCmEvent<'a>(cm::Event<'a>);

#[verifier::external_type_specification]
#[verifier::external_body]
pub struct ExCmTag<'a>(cm::Tag<'a>);

#[verifier::external_type_specification]
#[verifier::external_body]
pub struct ExCmAlignment(cm::Alignment);

/// The primitive events, with byte ranges, that the tokenizer produces for
/// this text.
pub uninterp spec fn prim_events_of(s: Seq<char>) -> Seq<PrimEvent>;

/// Relies on str::as_bytes: the bytes of a tokenizer string, owned.
#[verifier::external_body]
fn bv(s: &str) -> Vec<u8> {
    s.as_bytes().to_vec()
}

/// Relies on pulldown_cmark's Alignment: its four variants are carried over
/// one for one.
#[verifier::external_body]
fn convert_alignment(a: &cm::Alignment) -> CellAlignment {
    match a {
        cm::Alignment::None => CellAlignment::Unset,
        cm::Alignment::Left => CellAlignment::Left,
        cm::Alignment::Center => CellAlignment::Center,
        cm::Alignment::Right => CellAlignment::Right,
    }
}

/// Relies on pulldown_cmark's Alignment: converts a column alignment list.
#[verifier::external_body]
fn conv_aligns(a: &Vec<cm::Alignment>) -> Vec<CellAlignment> {
    a.iter().map(|x| convert_alignment(x)).collect()
}

/// Relies on pulldown_cmark's Tag: each payload-carrying variant is carried
/// over with its fields as plain values; link types are dropped as the
/// pipeline never reads them.  Returns nothing for payload-free variants.
#[verifier::external_body]
fn convert_data_tag(t: &cm::Tag<'_>) -> Option<PrimTag> {
    match t {
        CmTag::Heading(n) => Some(PrimTag::Heading(*n)),
        CmTag::CodeBlock(CbKind::Fenced(l)) => Some(PrimTag::FencedCodeBlock(bv(l))),
        CmTag::CodeBlock(CbKind::Indented) => Some(PrimTag::IndentedCodeBlock),
        CmTag::List(n) => Some(PrimTag::List(*n)),
        CmTag::FootnoteDefinition(s) => Some(PrimTag::FootnoteDefinition(bv(s))),
        CmTag::Table(a) => Some(PrimTag::Table(conv_aligns(a))),
        CmTag::Link(_, t2, ti) => Some(PrimTag::Link(bv(t2), bv(ti))),
        CmTag::Image(_, t2, ti) => Some(PrimTag::Image(bv(t2), bv(ti))),
        _ => None,
    }
}

/// Relies on pulldown_cmark's Tag: the payload-free variants are carried
/// over one for one; the payload-carrying ones were already taken by
/// `convert_data_tag`, so the final arm is never reached.
#[verifier::external_body]
fn convert_tag(t: cm::Tag<'_>) -> PrimTag {
    if let Some(pt) = convert_data_tag(&t) {
        return pt;
    }
    match t {
        CmTag::Paragraph => PrimTag::Paragraph,
        CmTag::BlockQuote => PrimTag::BlockQuote,
        CmTag::Item => PrimTag::Item,
        CmTag::TableHead => PrimTag::TableHead,
        CmTag::TableRow => PrimTag::TableRow,
        CmTag::TableCell => PrimTag::TableCell,
        CmTag::Emphasis => PrimTag::Emphasis,
        CmTag::Strong => PrimTag::Strong,
        CmTag::Strikethrough => PrimTag::Strikethrough,
        _ => PrimTag::Paragraph,
    }
}

/// Relies on pulldown_cmark's Event: each variant is carried over one for
/// one, with its text as bytes and its byte range as plain values.
#[verifier::external_body]
fn convert_event(ev: cm::Event<'_>, start: usize, end: usize) -> PrimEvent {
    let prim = match ev {
        CmEvent::Start(t) => Prim::Start(convert_tag(t)),
        CmEvent::End(t) => Prim::End(convert_tag(t)),
        CmEvent::Text(s) => Prim::Text(bv(&s)),
        CmEvent::Code(s) => Prim::Code(bv(&s)),
        CmEvent::Html(s) => Prim::Html(bv(&s)),
        CmEvent::FootnoteReference(s) => Prim::FootnoteReference(bv(&s)),
        CmEvent::SoftBreak => Prim::SoftBreak,
        CmEvent::HardBreak => Prim::HardBreak,
        CmEvent::Rule => Prim::Rule,
        CmEvent::TaskListMarker(c) => Prim::TaskListMarker(c),
    };
    PrimEvent { prim, start, end }
}

/// Relies on pulldown_cmark's Parser with tables, strikethrough, task lists
/// and footnotes enabled: tokenizes the text into primitive events with
/// byte ranges; the result depends on the text alone.
#[verifier::external_body]
pub(crate) fn tokenize(s: &str) -> (r: Vec<PrimEvent>)
    ensures
        r@ == prim_events_of(s@),
{
    let mut opts = cm::Options::empty();
    opts.insert(cm::Options::ENABLE_TABLES);
    opts.insert(cm::Options::ENABLE_STRIKETHROUGH);
    opts.insert(cm::Options::ENABLE_TASKLISTS);
    opts.insert(cm::Options::ENABLE_FOOTNOTES);
    let parser = cm::Parser::new_ext(s, opts);
    parser.into_offset_iter().map(|(ev, r)| convert_event(ev, r.start, r.end)).collect()
}

} // verus!
