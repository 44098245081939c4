//! The raw content reader: flattens a bounded primitive subtree into one
//! merged byte string.
//!
//! It is entered immediately after a start event with nesting depth 1 and
//! consumes primitive events until the depth returns to zero, concatenating
//! the content of every text and code event, translating soft and hard
//! breaks into a newline, and stripping all other events.

use vstd::prelude::*;

use crate::prim::{Prim, PrimEvent};

verus! {

/// Number of primitive events the raw reader consumes when started at
/// index `i` with the given nesting depth (the closing end event included).
pub open spec fn raw_len(prims: Seq<PrimEvent>, i: int, depth: int) -> nat
    decreases prims.len() - i,
{
    if i < 0 || i >= prims.len() || depth <= 0 {
        0
    } else {
        match prims[i].prim {
            Prim::Start(_) => (1 + raw_len(prims, i + 1, depth + 1)) as nat,
            Prim::End(_) => if depth == 1 {
                1
            } else {
                (1 + raw_len(prims, i + 1, depth - 1)) as nat
            },
            _ => (1 + raw_len(prims, i + 1, depth)) as nat,
        }
    }
}

/// The flattened content of the subtree the raw reader consumes: text and
/// code bytes in order, with soft and hard breaks as a newline byte.
pub open spec fn raw_flatten(prims: Seq<PrimEvent>, i: int, depth: int) -> Seq<u8>
    decreases prims.len() - i,
{
    if i < 0 || i >= prims.len() || depth <= 0 {
        Seq::empty()
    } else {
        match prims[i].prim {
            Prim::Start(_) => raw_flatten(prims, i + 1, depth + 1),
            Prim::End(_) => if depth == 1 {
                Seq::empty()
            } else {
                raw_flatten(prims, i + 1, depth - 1)
            },
            Prim::Text(t) => t@ + raw_flatten(prims, i + 1, depth),
            Prim::Code(t) => t@ + raw_flatten(prims, i + 1, depth),
            Prim::SoftBreak => seq![10u8] + raw_flatten(prims, i + 1, depth),
            Prim::HardBreak => seq![10u8] + raw_flatten(prims, i + 1, depth),
            _ => raw_flatten(prims, i + 1, depth),
        }
    }
}

pub proof fn lemma_raw_len_bound(prims: Seq<PrimEvent>, i: int, depth: int)
    requires
        0 <= i <= prims.len(),
    ensures
        i + raw_len(prims, i, depth) <= prims.len(),
    decreases prims.len() - i,
{
    if i < prims.len() && depth > 0 {
        match prims[i].prim {
            Prim::Start(_) => lemma_raw_len_bound(prims, i + 1, depth + 1),
            Prim::End(_) => {
                if depth != 1 {
                    lemma_raw_len_bound(prims, i + 1, depth - 1);
                }
            },
            _ => lemma_raw_len_bound(prims, i + 1, depth),
        }
    }
}

/// Whether every event in `[i, j)` is a plain text fragment or a break.
pub open spec fn text_only(prims: Seq<PrimEvent>, i: int, j: int) -> bool {
    forall|k: int|
        i <= k < j ==> (prims[k].prim is Text || prims[k].prim is SoftBreak
            || prims[k].prim is HardBreak)
}

/// The exact concatenation of the fragments in `[i, j)`, with soft and
/// hard breaks replaced by a newline byte.
pub open spec fn concat_texts(prims: Seq<PrimEvent>, i: int, j: int) -> Seq<u8>
    decreases j - i,
{
    if i >= j {
        Seq::empty()
    } else {
        (match prims[i].prim {
            Prim::Text(t) => t@,
            _ => seq![10u8],
        }) + concat_texts(prims, i + 1, j)
    }
}

/// Law: a subtree holding only plain text fragments and breaks flattens to
/// their exact concatenation, with soft and hard breaks as a newline, and
/// the reader consumes exactly the fragments and the closing end event.
pub proof fn lemma_raw_flatten_texts(prims: Seq<PrimEvent>, i: int, j: int)
    requires
        0 <= i <= j < prims.len(),
        text_only(prims, i, j),
        prims[j].prim is End,
    ensures
        raw_flatten(prims, i, 1) == concat_texts(prims, i, j),
        raw_len(prims, i, 1) == j - i + 1,
    decreases j - i,
{
    if i == j {
        assert(raw_flatten(prims, i, 1) =~= Seq::<u8>::empty());
    } else {
        lemma_raw_flatten_texts(prims, i + 1, j);
    }
}

/// Starting the raw reader inside the tail of a stream reads the same
/// content as starting it at the corresponding index of the whole stream.
pub proof fn lemma_raw_shift(prims: Seq<PrimEvent>, k: int, j: int, depth: int)
    requires
        0 <= k <= j <= prims.len(),
    ensures
        raw_flatten(prims.skip(k), j - k, depth) == raw_flatten(prims, j, depth),
        raw_len(prims.skip(k), j - k, depth) == raw_len(prims, j, depth),
    decreases prims.len() - j,
{
    if j < prims.len() && depth > 0 {
        assert(prims.skip(k)[j - k] == prims[j]);
        match prims[j].prim {
            Prim::Start(_) => lemma_raw_shift(prims, k, j + 1, depth + 1),
            Prim::End(_) => {
                if depth != 1 {
                    lemma_raw_shift(prims, k, j + 1, depth - 1);
                }
            },
            _ => lemma_raw_shift(prims, k, j + 1, depth),
        }
    }
}

/// Copies the byte range `[a, c)` of `v` into a fresh vector.
pub(crate) fn copy_range(v: &Vec<u8>, a: usize, c: usize) -> (r: Vec<u8>)
    requires
        a <= c <= v@.len(),
    ensures
        r@ == v@.subrange(a as int, c as int),
{
    let mut out: Vec<u8> = Vec::new();
    let mut i = a;
    while i < c
        invariant
            a <= i <= c <= v@.len(),
            out@ == v@.subrange(a as int, i as int),
        decreases c - i,
    {
        out.push(v[i]);
        proof {
            assert(v@.subrange(a as int, i as int).push(v@[i as int]) =~= v@.subrange(
                a as int,
                i + 1,
            ));
        }
        i = i + 1;
    }
    out
}

/// Consumes one bounded subtree from the front of `prims` (entered at depth
/// 1, ended by the event that returns the depth to zero) and returns its
/// flattened content.
pub fn read_raw(prims: &mut Vec<PrimEvent>) -> (out: Vec<u8>)
    requires
        old(prims)@.len() < usize::MAX,
    ensures
        out@ == raw_flatten(old(prims)@, 0, 1),
        final(prims)@ == old(prims)@.skip(raw_len(old(prims)@, 0, 1) as int),
{
    let ghost p0 = prims@;
    let mut buf: Vec<u8> = Vec::new();
    let mut depth: usize = 1;
    let ghost mut k: int = 0;
    proof {
        lemma_raw_len_bound(p0, 0, 1);
    }
    while prims.len() > 0 && depth > 0
        invariant
            0 <= k <= p0.len() < usize::MAX,
            prims@ == p0.skip(k),
            depth <= 1 + k,
            depth > 0 ==> raw_flatten(p0, 0, 1) == buf@ + raw_flatten(p0, k, depth as int)
                && raw_len(p0, 0, 1) == k + raw_len(p0, k, depth as int),
            depth == 0 ==> raw_flatten(p0, 0, 1) == buf@ && raw_len(p0, 0, 1) == k,
        decreases p0.len() - k,
    {
        proof {
            assert(prims@[0] == p0[k]);
            assert(p0.skip(k).remove(0) =~= p0.skip(k + 1));
        }
        let p = prims.remove(0);
        let ghost d = depth as int;
        match p.prim {
            Prim::Start(_) => {
                depth = depth + 1;
            },
            Prim::End(_) => {
                depth = depth - 1;
                proof {
                    if d == 1 {
                        assert(buf@ + Seq::<u8>::empty() =~= buf@);
                    }
                }
            },
            Prim::Text(t) => {
                proof {
                    assert(buf@ + (t@ + raw_flatten(p0, k + 1, d)) =~= (buf@ + t@) + raw_flatten(
                        p0,
                        k + 1,
                        d,
                    ));
                }
                let mut t = t;
                buf.append(&mut t);
            },
            Prim::Code(t) => {
                proof {
                    assert(buf@ + (t@ + raw_flatten(p0, k + 1, d)) =~= (buf@ + t@) + raw_flatten(
                        p0,
                        k + 1,
                        d,
                    ));
                }
                let mut t = t;
                buf.append(&mut t);
            },
            Prim::SoftBreak => {
                proof {
                    assert(buf@ + (seq![10u8] + raw_flatten(p0, k + 1, d)) =~= (buf@ + seq![10u8])
                        + raw_flatten(p0, k + 1, d));
                    assert(buf@ + seq![10u8] =~= buf@.push(10u8));
                }
                buf.push(10);
            },
            Prim::HardBreak => {
                proof {
                    assert(buf@ + (seq![10u8] + raw_flatten(p0, k + 1, d)) =~= (buf@ + seq![10u8])
                        + raw_flatten(p0, k + 1, d));
                    assert(buf@ + seq![10u8] =~= buf@.push(10u8));
                }
                buf.push(10);
            },
            _ => {},
        }
        proof {
            k = k + 1;
        }
    }
    proof {
        if depth > 0 {
            assert(k == p0.len());
            assert(raw_flatten(p0, k, depth as int) =~= Seq::<u8>::empty());
            assert(buf@ + Seq::<u8>::empty() =~= buf@);
            assert(raw_len(p0, k, depth as int) == 0);
        }
    }
    buf
}

} // verus!
