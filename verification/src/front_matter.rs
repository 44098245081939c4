//! The front matter splitter: detects a leading delimited metadata block —
//! a line holding only `---` (with optional trailing whitespace), arbitrary
//! content, and a first following line holding only `---` (optional trailing
//! whitespace, optional trailing newline) — and hands the enclosed bytes to
//! the metadata deserializer.  Failure to match or to deserialize is silent:
//! the original text is returned unchanged.

use vstd::prelude::*;

use crate::raw::copy_range;
use crate::yaml::{parse_yaml, yaml_parses};

verus! {

/// Horizontal whitespace: whitespace other than the newline byte.
pub open spec fn is_hws(b: u8) -> bool {
    b == 32 || b == 9 || b == 13 || b == 11 || b == 12
}

/// First index at or after `from` that does not hold horizontal whitespace.
pub open spec fn hws_end(t: Seq<u8>, from: int) -> int
    decreases t.len() - from,
{
    if from < t.len() && 0 <= from && is_hws(t[from]) {
        hws_end(t, from + 1)
    } else {
        from
    }
}

/// First index at or after `from` holding a newline byte, or the length of
/// `t` if there is none.
pub open spec fn line_end(t: Seq<u8>, from: int) -> int
    decreases t.len() - from,
{
    if from < t.len() && 0 <= from && t[from] != 10 {
        line_end(t, from + 1)
    } else {
        from
    }
}

pub proof fn lemma_line_end(t: Seq<u8>, from: int)
    requires
        0 <= from <= t.len(),
    ensures
        from <= line_end(t, from) <= t.len(),
    decreases t.len() - from,
{
    if from < t.len() && t[from] != 10 {
        lemma_line_end(t, from + 1);
    }
}

/// If the line starting at `q` holds only `---` and trailing horizontal
/// whitespace, the index just past that line (past its newline, or the end
/// of `b`); otherwise nothing.
pub open spec fn fence_line_end(b: Seq<u8>, q: int) -> Option<int> {
    if 0 <= q && q + 3 <= b.len() && b[q] == 45 && b[q + 1] == 45 && b[q + 2] == 45 {
        let w = hws_end(b, q + 3);
        if w == b.len() {
            Option::Some(b.len() as int)
        } else if b[w] == 10 {
            Option::Some(w + 1)
        } else {
            Option::None
        }
    } else {
        Option::None
    }
}

/// The first line start at or after `q` that is a closing fence line,
/// together with the index just past that line.
pub open spec fn find_close(b: Seq<u8>, q: int) -> Option<(int, int)>
    decreases b.len() - q,
    via find_close_dec
{
    if q >= b.len() {
        Option::None
    } else if fence_line_end(b, q) is Some {
        Option::Some((q, fence_line_end(b, q)->Some_0))
    } else if line_end(b, q) >= b.len() {
        Option::None
    } else {
        find_close(b, line_end(b, q) + 1)
    }
}

#[via_fn]
proof fn find_close_dec(b: Seq<u8>, q: int) {
    if 0 <= q && q < b.len() {
        lemma_line_end(b, q);
    }
}

/// The bounds of a leading front matter block in `b`: the content's start,
/// the closing line's start, and the index just past the whole block.
pub open spec fn fm_bounds(b: Seq<u8>) -> Option<(int, int, int)> {
    match fence_line_end(b, 0) {
        Option::None => Option::None,
        Option::Some(oe) => match find_close(b, oe) {
            Option::None => Option::None,
            Option::Some((cs, ce)) => Option::Some((oe, cs, ce)),
        },
    }
}

fn is_hws_byte(b: u8) -> (r: bool)
    ensures
        r == is_hws(b),
{
    b == 32 || b == 9 || b == 13 || b == 11 || b == 12
}

fn hws_end_x(t: &[u8], from: usize) -> (r: usize)
    requires
        from <= t@.len(),
    ensures
        r == hws_end(t@, from as int),
        from <= r <= t@.len(),
{
    let mut i = from;
    while i < t.len() && is_hws_byte(t[i])
        invariant
            from <= i <= t@.len(),
            hws_end(t@, from as int) == hws_end(t@, i as int),
        decreases t@.len() - i,
    {
        i = i + 1;
    }
    i
}

fn line_end_x(t: &[u8], from: usize) -> (r: usize)
    requires
        from <= t@.len(),
    ensures
        r == line_end(t@, from as int),
        from <= r <= t@.len(),
{
    let mut i = from;
    while i < t.len() && t[i] != 10
        invariant
            from <= i <= t@.len(),
            line_end(t@, from as int) == line_end(t@, i as int),
        decreases t@.len() - i,
    {
        i = i + 1;
    }
    i
}

fn fence_line_end_x(b: &[u8], q: usize) -> (r: Option<usize>)
    requires
        q <= b@.len(),
    ensures
        match r {
            Option::Some(e) => fence_line_end(b@, q as int) == Option::Some(e as int) && q <= e
                <= b@.len(),
            Option::None => fence_line_end(b@, q as int) is None,
        },
{
    if b.len() < 3 || q > b.len() - 3 {
        return None;
    }
    if b[q] != 45 || b[q + 1] != 45 || b[q + 2] != 45 {
        return None;
    }
    let w = hws_end_x(b, q + 3);
    if w == b.len() {
        Some(b.len())
    } else if b[w] == 10 {
        Some(w + 1)
    } else {
        None
    }
}

fn find_close_x(b: &[u8], q: usize) -> (r: Option<(usize, usize)>)
    requires
        q <= b@.len(),
    ensures
        match r {
            Option::Some((cs, ce)) => find_close(b@, q as int) == Option::Some(
                (cs as int, ce as int),
            ) && cs <= b@.len() && ce <= b@.len() && cs <= ce,
            Option::None => find_close(b@, q as int) is None,
        },
{
    let mut p = q;
    loop
        invariant
            p <= b@.len(),
            find_close(b@, q as int) == find_close(b@, p as int),
        decreases b@.len() - p,
    {
        if p >= b.len() {
            return None;
        }
        match fence_line_end_x(b, p) {
            Some(e) => {
                return Some((p, e));
            },
            None => {},
        }
        let le = line_end_x(b, p);
        if le >= b.len() {
            return None;
        }
        p = le + 1;
    }
}

/// Splits a leading front matter block off `source` and deserializes it.
///
/// Returns the structured value and the remainder after the block when the
/// fence matches and its content deserializes; otherwise returns no value
/// and the source unchanged.
pub fn split_and_parse_front_matter(source: Vec<u8>) -> (r: (
    Option<serde_yaml::Value>,
    Vec<u8>,
))
    ensures
        match fm_bounds(source@) {
            Option::Some(bounds) => {
                &&& (r.0 is Some <==> yaml_parses(source@.subrange(bounds.0, bounds.1)))
                &&& (r.0 is Some ==> r.1@ == source@.skip(bounds.2))
                &&& (r.0 is None ==> r.1@ == source@)
            },
            Option::None => r.0 is None && r.1@ == source@,
        },
{
    let oe = match fence_line_end_x(&source, 0) {
        Some(oe) => oe,
        None => {
            return (None, source);
        },
    };
    let (cs, ce) = match find_close_x(&source, oe) {
        Some(p) => p,
        None => {
            return (None, source);
        },
    };
    proof {
        lemma_close_after_open(source@, oe as int);
    }
    let content = copy_range(&source, oe, cs);
    match parse_yaml(&content) {
        Some(value) => {
            let rest = copy_range(&source, ce, source.len());
            proof {
                assert(source@.subrange(ce as int, source@.len() as int) =~= source@.skip(
                    ce as int,
                ));
            }
            (Some(value), rest)
        },
        None => (None, source),
    }
}

/// The closing line found from the open line's end starts at or after it.
proof fn lemma_close_after_open(b: Seq<u8>, q: int)
    requires
        0 <= q <= b.len(),
        find_close(b, q) is Some,
    ensures
        q <= find_close(b, q)->Some_0.0,
        find_close(b, q)->Some_0.0 <= find_close(b, q)->Some_0.1 <= b.len(),
    decreases b.len() - q,
{
    if q >= b.len() {
    } else if fence_line_end(b, q) is Some {
        lemma_hws_end_bounds(b, q + 3);
    } else if line_end(b, q) >= b.len() {
    } else {
        lemma_line_end(b, q);
        lemma_close_after_open(b, line_end(b, q) + 1);
    }
}

proof fn lemma_hws_end_bounds(t: Seq<u8>, from: int)
    requires
        0 <= from <= t.len(),
    ensures
        from <= hws_end(t, from) <= t.len(),
    decreases t.len() - from,
{
    if from < t.len() && is_hws(t[from]) {
        lemma_hws_end_bounds(t, from + 1);
    }
}

} // verus!
