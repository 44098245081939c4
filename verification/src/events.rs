//! The annotated event model: the element type of the stream that the
//! pipeline produces, together with its specification-level model.
//!
//! Text payloads are byte strings taken from the source buffer or merged from
//! several of its fragments.  Front matter attached to a directive is a
//! structured value produced by the metadata deserializer; it is opaque to
//! the specifications, which track only whether it is present, so every event
//! has a total model in which the rest of its content is exact.

use vstd::prelude::*;

use crate::location::Location;

verus! {

/// Column alignment of a table cell.
#[derive(Clone, Copy, Debug, PartialEq, Eq, Structural)]
pub enum CellAlignment {
    Unset,
    Left,
    Center,
    Right,
}

/// The closed set of block and inline tag kinds of start/end events.
#[derive(Clone, Copy, Debug, PartialEq, Eq, Structural)]
pub enum TagKind {
    Paragraph,
    Heading1,
    Heading2,
    Heading3,
    Heading4,
    Heading5,
    Heading6,
    BlockQuote,
    OrderedList,
    UnorderedList,
    ListItem,
    FootnoteDefinition,
    Table,
    TableHeader,
    TableBody,
    TableRow,
    TableHead,
    TableCell,
    Emphasis,
    Strong,
    Strikethrough,
    Link,
}

/// Optional attributes of a start event, mutable until the matching end
/// event has been processed.
#[derive(Clone, Debug)]
pub struct Attrs {
    pub id: Option<Vec<u8>>,
    pub target: Option<Vec<u8>>,
    pub title: Option<Vec<u8>>,
    pub start: Option<u32>,
    pub alignment: Option<CellAlignment>,
}

impl Attrs {
    /// Attributes with every field absent.
    pub fn new() -> (r: Attrs)
        ensures
            r@ == SAttrs::empty(),
    {
        Attrs { id: None, target: None, title: None, start: None, alignment: None }
    }
}

/// Model of a byte-string payload: the sequence of its bytes.
pub open spec fn opt_bytes(o: Option<Vec<u8>>) -> Option<Seq<u8>> {
    match o {
        Option::None => Option::None,
        Option::Some(v) => Option::Some(v@),
    }
}

/// Specification-level model of [`Attrs`].
pub struct SAttrs {
    pub id: Option<Seq<u8>>,
    pub target: Option<Seq<u8>>,
    pub title: Option<Seq<u8>>,
    pub start: Option<u32>,
    pub alignment: Option<CellAlignment>,
}

impl SAttrs {
    pub open spec fn empty() -> SAttrs {
        SAttrs {
            id: Option::None,
            target: Option::None,
            title: Option::None,
            start: Option::None,
            alignment: Option::None,
        }
    }
}

impl View for Attrs {
    type V = SAttrs;

    open spec fn view(&self) -> SAttrs {
        SAttrs {
            id: opt_bytes(self.id),
            target: opt_bytes(self.target),
            title: opt_bytes(self.title),
            start: self.start,
            alignment: self.alignment,
        }
    }
}

/// A semantic event of the output stream.
pub enum EventKind {
    StartTag { tag: TagKind, attrs: Attrs },
    EndTag { tag: TagKind },
    Text { text: Vec<u8> },
    InlineCode { code: Vec<u8> },
    InterpretedText { text: Vec<u8>, role: Vec<u8> },
    Directive {
        name: Vec<u8>,
        argument: Option<Vec<u8>>,
        front_matter: Option<serde_yaml::Value>,
        body: Vec<u8>,
    },
    CodeBlock { language: Option<Vec<u8>>, code: Vec<u8> },
    Image { target: Vec<u8>, alt: Option<Vec<u8>>, title: Option<Vec<u8>> },
    RawHtml { html: Vec<u8> },
    FootnoteReference { target: Vec<u8> },
    SoftBreak,
    HardBreak,
    Rule,
    Checkbox { checked: bool },
}

/// Specification-level model of an [`EventKind`].  A directive's front matter is
/// modeled by its presence alone.
pub enum SEvent {
    StartTag { tag: TagKind, attrs: SAttrs },
    EndTag { tag: TagKind },
    Text { text: Seq<u8> },
    InlineCode { code: Seq<u8> },
    InterpretedText { text: Seq<u8>, role: Seq<u8> },
    Directive {
        name: Seq<u8>,
        argument: Option<Seq<u8>>,
        front_matter: bool,
        body: Seq<u8>,
    },
    CodeBlock { language: Option<Seq<u8>>, code: Seq<u8> },
    Image { target: Seq<u8>, alt: Option<Seq<u8>>, title: Option<Seq<u8>> },
    RawHtml { html: Seq<u8> },
    FootnoteReference { target: Seq<u8> },
    SoftBreak,
    HardBreak,
    Rule,
    Checkbox { checked: bool },
}

impl View for EventKind {
    type V = SEvent;

    open spec fn view(&self) -> SEvent {
        match self {
            EventKind::StartTag { tag, attrs } => SEvent::StartTag { tag: *tag, attrs: attrs@ },
            EventKind::EndTag { tag } => SEvent::EndTag { tag: *tag },
            EventKind::Text { text } => SEvent::Text { text: text@ },
            EventKind::InlineCode { code } => SEvent::InlineCode { code: code@ },
            EventKind::InterpretedText { text, role } => SEvent::InterpretedText {
                text: text@,
                role: role@,
            },
            EventKind::Directive { name, argument, front_matter, body } => SEvent::Directive {
                name: name@,
                argument: opt_bytes(*argument),
                front_matter: front_matter is Some,
                body: body@,
            },
            EventKind::CodeBlock { language, code } => SEvent::CodeBlock {
                language: opt_bytes(*language),
                code: code@,
            },
            EventKind::Image { target, alt, title } => SEvent::Image {
                target: target@,
                alt: opt_bytes(*alt),
                title: opt_bytes(*title),
            },
            EventKind::RawHtml { html } => SEvent::RawHtml { html: html@ },
            EventKind::FootnoteReference { target } => SEvent::FootnoteReference { target: target@ },
            EventKind::SoftBreak => SEvent::SoftBreak,
            EventKind::HardBreak => SEvent::HardBreak,
            EventKind::Rule => SEvent::Rule,
            EventKind::Checkbox { checked } => SEvent::Checkbox { checked: *checked },
        }
    }
}

/// An event together with the source location it was resolved to.
pub struct AnnotatedEvent {
    pub event: EventKind,
    pub location: Location,
}

/// Model of an [`AnnotatedEvent`]: the event model plus the location.
pub struct SAnnotated {
    pub event: SEvent,
    pub location: Location,
}

impl View for AnnotatedEvent {
    type V = SAnnotated;

    open spec fn view(&self) -> SAnnotated {
        SAnnotated { event: self.event@, location: self.location }
    }
}

/// The unrecoverable internal error: the tokenizer collaborator broke its
/// contract (a range outside the source, an end event with no open start,
/// a table event outside a table, or an unbalanced stream), so continuing
/// would corrupt offsets and attributes.
#[derive(Clone, Copy, Debug, PartialEq, Eq, Structural)]
pub struct StreamError;

/// Model of a whole output stream.
pub open spec fn stream_model(s: Seq<AnnotatedEvent>) -> Seq<SAnnotated> {
    s.map_values(|e: AnnotatedEvent| e@)
}

/// A trailer: information produced at an end event that is attached to the
/// matching start event before either is released.
pub enum Trailer {
    /// Sets the `id` attribute of the start event.
    Id(Vec<u8>),
}

/// Model of a trailer: the id bytes to attach.
pub open spec fn trailer_model(t: Option<Trailer>) -> Option<Seq<u8>> {
    match t {
        Option::None => Option::None,
        Option::Some(Trailer::Id(v)) => Option::Some(v@),
    }
}

/// An annotated event paired with the trailer its end event produced, the
/// element type of the stream between the classifier and the trailer buffer.
pub struct ClassifiedEvent {
    pub event: AnnotatedEvent,
    pub trailer: Option<Trailer>,
}

/// Model of a [`ClassifiedEvent`].
pub struct SClassified {
    pub event: SAnnotated,
    pub trailer: Option<Seq<u8>>,
}

impl View for ClassifiedEvent {
    type V = SClassified;

    open spec fn view(&self) -> SClassified {
        SClassified { event: self.event@, trailer: trailer_model(self.trailer) }
    }
}

/// Model of a classified stream.
pub open spec fn cstream_model(s: Seq<ClassifiedEvent>) -> Seq<SClassified> {
    s.map_values(|e: ClassifiedEvent| e@)
}

} // verus!
