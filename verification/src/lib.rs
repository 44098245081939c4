//! A stream-oriented markup front end: it turns a lightweight-markup document
//! into an annotated, position-tracked sequence of semantic events, adding
//! fenced-block directives, role-tagged interpreted text, explicit heading
//! identifiers, and synthesized table-body boundaries on top of a primitive
//! block/inline tokenizer.

pub mod classify;
pub mod events;
pub mod front_matter;
pub mod location;
pub mod raw;
pub mod tokenize;
pub mod trailers;
pub mod pattern;
pub mod pipeline;
pub mod processors;
pub mod prim;
pub mod yaml;

pub use classify::{classify, TableState};
pub use events::{
    AnnotatedEvent, Attrs, CellAlignment, ClassifiedEvent, EventKind, StreamError, TagKind,
    Trailer,
};
pub use front_matter::split_and_parse_front_matter;
pub use location::{resolve_location, Location};
pub use pipeline::{parse, EventStream};
pub use prim::{Prim, PrimEvent, PrimTag};
pub use processors::Processor;
pub use raw::read_raw;
pub use trailers::{buffer_for_trailers, tag_supports_trailers};
