//! The primitive event model: the tokenizer-level units that the pipeline
//! consumes, each paired with the byte range it came from.

use vstd::prelude::*;

use crate::events::CellAlignment;

verus! {

/// Tokenizer-level tag kinds, with their payloads as plain values.
pub enum PrimTag {
    Paragraph,
    /// A heading; the payload is its level.
    Heading(u32),
    BlockQuote,
    /// A fenced code block; the payload is its language annotation line.
    FencedCodeBlock(Vec<u8>),
    IndentedCodeBlock,
    /// A list; the payload is the ordered-list start number, if any.
    List(Option<u64>),
    Item,
    /// A footnote definition; the payload is its label.
    FootnoteDefinition(Vec<u8>),
    /// A table; the payload is the column alignments.
    Table(Vec<CellAlignment>),
    TableHead,
    TableRow,
    TableCell,
    Emphasis,
    Strong,
    Strikethrough,
    /// A link: target and title.
    Link(Vec<u8>, Vec<u8>),
    /// An image: target and title.
    Image(Vec<u8>, Vec<u8>),
}

/// A tokenizer-level unit.
pub enum Prim {
    Start(PrimTag),
    End(PrimTag),
    Text(Vec<u8>),
    Code(Vec<u8>),
    Html(Vec<u8>),
    FootnoteReference(Vec<u8>),
    SoftBreak,
    HardBreak,
    Rule,
    TaskListMarker(bool),
}

/// A primitive event with the byte range `[start, end)` it covers.
pub struct PrimEvent {
    pub prim: Prim,
    pub start: usize,
    pub end: usize,
}

} // verus!
