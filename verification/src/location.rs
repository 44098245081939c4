//! Resolution of byte ranges into line/column annotated locations.
//!
//! A location records where in the source buffer an event came from: its byte
//! offset, its byte length, the 1-based line number and the 0-based column of
//! its first byte.

use vstd::prelude::*;

verus! {

/// Source position of an event: byte offset and length, 1-based line,
/// 0-based column.
#[derive(Clone, Copy, Debug)]
pub struct Location {
    pub offset: usize,
    pub len: usize,
    pub line: usize,
    pub column: usize,
}

/// Number of newline bytes in `src` strictly before offset `off`.
pub open spec fn newlines_before(src: Seq<u8>, off: int) -> int
    decreases off,
{
    if off <= 0 {
        0
    } else {
        newlines_before(src, off - 1) + if src[off - 1] == 10 {
            1int
        } else {
            0int
        }
    }
}

/// 1-based line number of the byte at offset `off`.
pub open spec fn line_at(src: Seq<u8>, off: int) -> int {
    1 + newlines_before(src, off)
}

/// 0-based column of the byte at offset `off`: its distance from the last
/// newline before it, or `off` itself if no newline precedes it.
pub open spec fn column_at(src: Seq<u8>, off: int) -> int
    decreases off,
{
    if off <= 0 {
        0
    } else if src[off - 1] == 10 {
        0
    } else {
        column_at(src, off - 1) + 1
    }
}

/// The location that the byte range `[start, end)` of `src` resolves to.
pub open spec fn location_of(src: Seq<u8>, start: int, end: int) -> Location {
    Location {
        offset: start as usize,
        len: (end - start) as usize,
        line: line_at(src, start) as usize,
        column: column_at(src, start) as usize,
    }
}

pub proof fn lemma_newlines_before_bound(src: Seq<u8>, off: int)
    requires
        0 <= off,
    ensures
        0 <= newlines_before(src, off) <= off,
    decreases off,
{
    if off > 0 {
        lemma_newlines_before_bound(src, off - 1);
    }
}

pub proof fn lemma_column_at_bound(src: Seq<u8>, off: int)
    requires
        0 <= off,
    ensures
        0 <= column_at(src, off) <= off,
    decreases off,
{
    if off > 0 && src[off - 1] != 10 {
        lemma_column_at_bound(src, off - 1);
    }
}

/// Resolves the byte range `[start, end)` of `src` into a location, scanning
/// the prefix of `src` for newlines.
pub fn resolve_location(src: &[u8], start: usize, end: usize) -> (loc: Location)
    requires
        start <= end <= src@.len(),
        src@.len() < usize::MAX,
    ensures
        loc == location_of(src@, start as int, end as int),
{
    let mut line: usize = 1;
    let mut column: usize = 0;
    let mut i: usize = 0;
    proof {
        lemma_newlines_before_bound(src@, start as int);
    }
    while i < start
        invariant
            i <= start <= end <= src@.len() < usize::MAX,
            line == line_at(src@, i as int),
            column == column_at(src@, i as int),
        decreases start - i,
    {
        proof {
            lemma_newlines_before_bound(src@, i as int);
            lemma_column_at_bound(src@, i as int);
        }
        if src[i] == 10 {
            line = line + 1;
            column = 0;
        } else {
            column = column + 1;
        }
        i = i + 1;
    }
    Location { offset: start, len: end - start, line, column }
}

} // verus!
