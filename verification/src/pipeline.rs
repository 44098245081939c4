//! The assembled pipeline: tokenizer, location resolution and extension
//! classification, trailer buffering, and table-body splicing, exposed as a
//! finite, forward-only, single-consumer pull sequence of annotated events.

use vstd::prelude::*;
use vstd::string::StringSliceAdditionalSpecFns;

use crate::events::{
    AnnotatedEvent, Attrs, ClassifiedEvent, EventKind, SAnnotated, SAttrs, SClassified, SEvent,
    StreamError, TagKind, cstream_model, stream_model,
};
use crate::classify::{classify, classify_at};
use crate::location::Location;
use crate::prim::PrimEvent;
use crate::tokenize::{prim_events_of, tokenize};
use crate::trailers::{
    attach_spec, buffer_for_trailers, collect_fold, is_capable_start, lemma_collect_bounds,
    tag_supports_trailers,
};

verus! {

/// A zero-length synthetic location at the offset of a neighboring event.
pub open spec fn synthetic_loc(loc: Location) -> Location {
    Location { offset: loc.offset, len: 0, line: loc.line, column: loc.column }
}

/// The synthetic start of a table body, spliced in after the header's end.
pub open spec fn synth_body_start(m: SAnnotated) -> SAnnotated {
    SAnnotated {
        event: SEvent::StartTag { tag: TagKind::TableBody, attrs: SAttrs::empty() },
        location: synthetic_loc(m.location),
    }
}

/// The synthetic end of a table body, spliced in before the table's end.
pub open spec fn synth_body_end(m: SAnnotated) -> SAnnotated {
    SAnnotated {
        event: SEvent::EndTag { tag: TagKind::TableBody },
        location: synthetic_loc(m.location),
    }
}

/// What one event of the trailer-resolved stream becomes: after a table
/// header's end a table body start is added, before a table's end a table
/// body end is added, and everything else is kept as it is.
pub open spec fn splice_one(m: SAnnotated) -> Seq<SAnnotated> {
    match m.event {
        SEvent::EndTag { tag: TagKind::TableHeader } => seq![m, synth_body_start(m)],
        SEvent::EndTag { tag: TagKind::Table } => seq![synth_body_end(m), m],
        _ => seq![m],
    }
}

/// The stream with synthetic table-body boundaries spliced in, from `i` on.
pub open spec fn splice_at(ms: Seq<SAnnotated>, i: int) -> Seq<SAnnotated>
    decreases ms.len() - i,
    when 0 <= i
{
    if i >= ms.len() {
        Seq::empty()
    } else {
        splice_one(ms[i]) + splice_at(ms, i + 1)
    }
}

/// The whole spliced stream.
pub open spec fn splice_spec(ms: Seq<SAnnotated>) -> Seq<SAnnotated> {
    splice_at(ms, 0)
}

/// Simulating a stack over start and end events from `i` at the given
/// depth: the depth never goes negative and ends at zero.
pub open spec fn balanced_from(ms: Seq<SAnnotated>, i: int, depth: int) -> bool
    decreases ms.len() - i,
    when 0 <= i
{
    if i >= ms.len() {
        depth == 0
    } else {
        match ms[i].event {
            SEvent::StartTag { .. } => balanced_from(ms, i + 1, depth + 1),
            SEvent::EndTag { .. } => depth > 0 && balanced_from(ms, i + 1, depth - 1),
            _ => balanced_from(ms, i + 1, depth),
        }
    }
}

/// Start and end events of the stream are perfectly nested and balanced.
pub open spec fn balanced(ms: Seq<SAnnotated>) -> bool {
    balanced_from(ms, 0, 0)
}

/// The model of what parsing a source produces: the classified stream with
/// trailers attached and table bodies spliced in, or nothing when the
/// tokenizer collaborator broke its contract (including an unbalanced
/// result).
pub open spec fn parse_result(src: Seq<u8>, prims: Seq<PrimEvent>) -> Option<Seq<SAnnotated>> {
    match classify_at(src, prims, 0, Seq::empty(), Option::None) {
        Option::None => Option::None,
        Option::Some(cl) => {
            let spliced = splice_spec(attach_spec(cl, 0));
            if balanced(spliced) {
                Option::Some(spliced)
            } else {
                Option::None
            }
        },
    }
}

/// Collecting from the tail of a stream reads the same events as
/// collecting at the corresponding index of the whole stream.
proof fn lemma_collect_shift(
    evs: Seq<SClassified>,
    k: int,
    j: int,
    out: Seq<SAnnotated>,
    st: Seq<(Seq<SAnnotated>, int)>,
)
    requires
        0 <= k,
        0 <= j,
        k + j <= evs.len(),
    ensures
        collect_fold(evs.skip(k), j, out, st).0 == collect_fold(evs, j + k, out, st).0,
        collect_fold(evs.skip(k), j, out, st).1 + k == collect_fold(evs, j + k, out, st).1,
    decreases evs.len() - j - k,
{
    if st.len() == 0 {
    } else if j + k >= evs.len() {
    } else {
        assert(evs.skip(k)[j] == evs[j + k]);
        let c = evs[j + k];
        let m = c.event;
        let buf = st.last().0;
        let d = st.last().1;
        if is_capable_start(m) {
            lemma_collect_shift(evs, k, j + 1, out, st.push((seq![m], 1)));
        } else if crate::trailers::is_start(m) {
            lemma_collect_shift(
                evs,
                k,
                j + 1,
                out,
                crate::trailers::update_last(st, (buf.push(m), d + 1)),
            );
        } else if crate::trailers::is_end(m) {
            if d == 1 {
                let resolved = crate::trailers::apply_trailer(buf.push(m), c.trailer);
                if st.len() == 1 {
                    lemma_collect_shift(evs, k, j + 1, out + resolved, Seq::empty());
                } else {
                    let parent = st[st.len() - 2];
                    lemma_collect_shift(
                        evs,
                        k,
                        j + 1,
                        out,
                        crate::trailers::update_last(
                            st.drop_last(),
                            (parent.0 + resolved, parent.1),
                        ),
                    );
                }
            } else {
                lemma_collect_shift(
                    evs,
                    k,
                    j + 1,
                    out,
                    crate::trailers::update_last(st, (buf.push(m), d - 1)),
                );
            }
        } else {
            lemma_collect_shift(
                evs,
                k,
                j + 1,
                out,
                crate::trailers::update_last(st, (buf.push(m), d)),
            );
        }
    }
}

/// Attaches trailers over the whole classified stream.
fn attach_trailers(cl: &mut Vec<ClassifiedEvent>) -> (out: Vec<AnnotatedEvent>)
    requires
        old(cl)@.len() < usize::MAX,
    ensures
        stream_model(out@) == attach_spec(cstream_model(old(cl)@), 0),
{
    let ghost c0 = cstream_model(cl@);
    let ghost n0 = cl@.len() as int;
    let mut out: Vec<AnnotatedEvent> = Vec::new();
    let ghost mut i: int = 0;
    proof {
        assert(cl@.skip(0) =~= cl@);
        assert(stream_model(out@) =~= Seq::<SAnnotated>::empty());
        assert(Seq::<SAnnotated>::empty() + attach_spec(c0, 0) =~= attach_spec(c0, 0));
    }
    while cl.len() > 0
        invariant
            0 <= i <= c0.len(),
            c0.len() == n0 < usize::MAX,
            c0 == cstream_model(old(cl)@),
            cl@ == old(cl)@.skip(i),
            stream_model(out@) + attach_spec(c0, i) == attach_spec(c0, 0),
        decreases c0.len() - i,
    {
        let ghost out0 = stream_model(out@);
        proof {
            assert(cstream_model(old(cl)@.skip(i)) =~= c0.skip(i));
            assert(cl@[0]@ == c0[i]);
            assert(old(cl)@.skip(i).remove(0) =~= old(cl)@.skip(i + 1));
        }
        let c = cl.remove(0);
        let ghost cm = c@;
        let ev = c.event;
        let mut capable = false;
        match &ev.event {
            EventKind::StartTag { tag, .. } => {
                capable = tag_supports_trailers(*tag);
            },
            _ => {},
        }
        proof {
            assert(capable == is_capable_start(cm.event));
        }
        if capable {
            proof {
                assert(cstream_model(old(cl)@.skip(i + 1)) =~= c0.skip(i + 1));
                lemma_collect_shift(
                    c0,
                    i + 1,
                    0,
                    Seq::empty(),
                    seq![(seq![cm.event], 1int)],
                );
                lemma_collect_bounds(c0, i + 1, Seq::empty(), seq![(seq![cm.event], 1int)]);
            }
            let mut buf = buffer_for_trailers(ev, cl);
            let ghost bm = stream_model(buf@);
            out.append(&mut buf);
            proof {
                let r = collect_fold(c0, i + 1, Seq::empty(), seq![(seq![cm.event], 1int)]);
                assert(stream_model(out@) =~= out0 + bm);
                assert(old(cl)@.skip(i + 1).skip(r.1 - (i + 1)) =~= old(cl)@.skip(r.1));
                assert((out0 + r.0) + attach_spec(c0, r.1) =~= out0 + (r.0 + attach_spec(
                    c0,
                    r.1,
                )));
                i = r.1;
            }
        } else {
            out.push(ev);
            proof {
                assert(stream_model(out@) =~= out0.push(cm.event));
                assert(out0.push(cm.event) =~= out0 + seq![cm.event]);
                assert((out0 + seq![cm.event]) + attach_spec(c0, i + 1) =~= out0 + (seq![cm.event]
                    + attach_spec(c0, i + 1)));
                i = i + 1;
            }
        }
    }
    proof {
        assert(attach_spec(c0, i) =~= Seq::<SAnnotated>::empty());
        assert(stream_model(out@) + Seq::<SAnnotated>::empty() =~= stream_model(out@));
    }
    out
}

/// Splices synthetic table-body boundary events into the stream.
fn splice_table_bodies(ms: &mut Vec<AnnotatedEvent>) -> (out: Vec<AnnotatedEvent>)
    ensures
        stream_model(out@) == splice_spec(stream_model(old(ms)@)),
{
    let ghost m0 = stream_model(ms@);
    let mut out: Vec<AnnotatedEvent> = Vec::new();
    let ghost mut i: int = 0;
    proof {
        assert(ms@.skip(0) =~= ms@);
        assert(stream_model(out@) =~= Seq::<SAnnotated>::empty());
        assert(Seq::<SAnnotated>::empty() + splice_at(m0, 0) =~= splice_at(m0, 0));
    }
    while ms.len() > 0
        invariant
            0 <= i <= m0.len(),
            m0 == stream_model(old(ms)@),
            ms@ == old(ms)@.skip(i),
            stream_model(out@) + splice_at(m0, i) == splice_at(m0, 0),
        decreases m0.len() - i,
    {
        let ghost out0 = stream_model(out@);
        proof {
            assert(stream_model(old(ms)@.skip(i)) =~= m0.skip(i));
            assert(ms@[0]@ == m0[i]);
            assert(old(ms)@.skip(i).remove(0) =~= old(ms)@.skip(i + 1));
        }
        let ev = ms.remove(0);
        let ghost em = ev@;
        let loc = ev.location;
        let mut kind: u8 = 0;
        match &ev.event {
            EventKind::EndTag { tag: TagKind::TableHeader } => {
                kind = 1;
            },
            EventKind::EndTag { tag: TagKind::Table } => {
                kind = 2;
            },
            _ => {},
        }
        let sloc = Location { offset: loc.offset, len: 0, line: loc.line, column: loc.column };
        if kind == 1 {
            let synth = AnnotatedEvent {
                event: EventKind::StartTag { tag: TagKind::TableBody, attrs: Attrs::new() },
                location: sloc,
            };
            let ghost sm = synth@;
            out.push(ev);
            out.push(synth);
            proof {
                assert(sm == synth_body_start(em));
                assert(stream_model(out@) =~= out0 + seq![em, sm]);
                assert(splice_one(em) == seq![em, sm]);
                assert((out0 + splice_one(em)) + splice_at(m0, i + 1) =~= out0 + (splice_one(em)
                    + splice_at(m0, i + 1)));
                i = i + 1;
            }
        } else if kind == 2 {
            let synth = AnnotatedEvent {
                event: EventKind::EndTag { tag: TagKind::TableBody },
                location: sloc,
            };
            let ghost sm = synth@;
            out.push(synth);
            out.push(ev);
            proof {
                assert(sm == synth_body_end(em));
                assert(stream_model(out@) =~= out0 + seq![sm, em]);
                assert(splice_one(em) == seq![sm, em]);
                assert((out0 + splice_one(em)) + splice_at(m0, i + 1) =~= out0 + (splice_one(em)
                    + splice_at(m0, i + 1)));
                i = i + 1;
            }
        } else {
            out.push(ev);
            proof {
                assert(stream_model(out@) =~= out0 + seq![em]);
                assert(splice_one(em) == seq![em]);
                assert((out0 + splice_one(em)) + splice_at(m0, i + 1) =~= out0 + (splice_one(em)
                    + splice_at(m0, i + 1)));
                i = i + 1;
            }
        }
    }
    proof {
        assert(splice_at(m0, i) =~= Seq::<SAnnotated>::empty());
        assert(stream_model(out@) + Seq::<SAnnotated>::empty() =~= stream_model(out@));
    }
    out
}

/// Checks the bracket balance of the stream.
fn is_balanced(ms: &Vec<AnnotatedEvent>) -> (r: bool)
    ensures
        r == balanced(stream_model(ms@)),
{
    let ghost m0 = stream_model(ms@);
    let mut depth: usize = 0;
    let mut i: usize = 0;
    while i < ms.len()
        invariant
            0 <= i <= ms@.len(),
            m0 == stream_model(ms@),
            depth <= i,
            balanced(m0) == balanced_from(m0, i as int, depth as int),
        decreases ms@.len() - i,
    {
        proof {
            assert(ms@[i as int]@ == m0[i as int]);
        }
        match &ms[i].event {
            EventKind::StartTag { .. } => {
                depth = depth + 1;
            },
            EventKind::EndTag { .. } => {
                if depth == 0 {
                    return false;
                }
                depth = depth - 1;
            },
            _ => {},
        }
        i = i + 1;
    }
    depth == 0
}

/// The produced event sequence: a finite, forward-only, non-restartable,
/// single-consumer pull stream.
pub struct EventStream {
    pub events: Vec<AnnotatedEvent>,
}

impl View for EventStream {
    type V = Seq<AnnotatedEvent>;

    open spec fn view(&self) -> Seq<AnnotatedEvent> {
        self.events@
    }
}

impl EventStream {
    /// Pulls the next event, or signals the end of the stream.
    pub fn next(&mut self) -> (r: Option<AnnotatedEvent>)
        ensures
            old(self)@.len() > 0 ==> r == Option::Some(old(self)@[0]) && final(self)@ == old(
                self,
            )@.skip(1),
            old(self)@.len() == 0 ==> r is None && final(self)@ == old(self)@,
    {
        if self.events.len() == 0 {
            None
        } else {
            proof {
                assert(self.events@.remove(0) =~= self.events@.skip(1));
            }
            Some(self.events.remove(0))
        }
    }

    /// How many events are left to pull.
    pub fn remaining(&self) -> (n: usize)
        ensures
            n == self@.len(),
    {
        self.events.len()
    }
}

/// Parses a document into the annotated event stream: primitive
/// tokenization, location resolution, extension classification, trailer
/// attachment, and table-body splicing.
///
/// Fails exactly when the tokenizer collaborator broke its contract (or a
/// machine limit is hit): a malformed primitive stream or an unbalanced
/// result is never handed to the consumer.
pub fn parse(s: &str) -> (r: Result<EventStream, StreamError>)
    ensures
        match r {
            Result::Ok(stream) => parse_result(s.spec_bytes(), prim_events_of(s@))
                == Option::Some(stream_model(stream@)),
            Result::Err(_) => parse_result(s.spec_bytes(), prim_events_of(s@)) is None
                || s.spec_bytes().len() >= usize::MAX || prim_events_of(s@).len() >= usize::MAX
                || (classify_at(
                    s.spec_bytes(),
                    prim_events_of(s@),
                    0,
                    Seq::empty(),
                    Option::None,
                ) matches Option::Some(cl) && cl.len() >= usize::MAX),
        },
{
    let src = s.as_bytes();
    if src.len() == usize::MAX {
        return Err(StreamError);
    }
    let mut prims = tokenize(s);
    if prims.len() == usize::MAX {
        return Err(StreamError);
    }
    let mut cl = match classify(src, &mut prims) {
        Ok(cl) => cl,
        Err(e) => {
            return Err(e);
        },
    };
    if cl.len() == usize::MAX {
        return Err(StreamError);
    }
    let mut attached = attach_trailers(&mut cl);
    let spliced = splice_table_bodies(&mut attached);
    if !is_balanced(&spliced) {
        return Err(StreamError);
    }
    Ok(EventStream { events: spliced })
}

/// Law: any stream the pipeline hands to a consumer is balanced —
/// simulating a stack over its start and end events never goes negative
/// and ends empty; a stream that would violate this is turned into the
/// internal error instead.
pub proof fn lemma_parse_balanced(src: Seq<u8>, prims: Seq<PrimEvent>)
    requires
        parse_result(src, prims) is Some,
    ensures
        balanced(parse_result(src, prims)->Some_0),
{
}

/// Splicing the tail of a stream equals splicing from that index.
proof fn lemma_splice_shift(ms: Seq<SAnnotated>, k: int)
    requires
        0 <= k <= ms.len(),
    ensures
        splice_spec(ms.skip(k)) == splice_at(ms, k),
    decreases ms.len() - k,
{
    if k == ms.len() {
        assert(splice_at(ms.skip(k), 0) =~= Seq::<SAnnotated>::empty());
    } else {
        assert(ms.skip(k)[0] == ms[k]);
        lemma_splice_shift(ms, k + 1);
        assert(ms.skip(k).skip(1) =~= ms.skip(k + 1));
        lemma_splice_shift(ms.skip(k), 1);
    }
}

/// Splicing distributes over concatenation.
proof fn lemma_splice_append_at(a: Seq<SAnnotated>, b: Seq<SAnnotated>, i: int)
    requires
        0 <= i <= a.len(),
    ensures
        splice_at(a + b, i) == splice_at(a, i) + splice_spec(b),
    decreases a.len() - i,
{
    if i == a.len() {
        lemma_splice_shift(a + b, i);
        assert((a + b).skip(i) =~= b);
        assert(splice_at(a, i) =~= Seq::<SAnnotated>::empty());
        assert(Seq::<SAnnotated>::empty() + splice_spec(b) =~= splice_spec(b));
    } else {
        assert((a + b)[i] == a[i]);
        lemma_splice_append_at(a, b, i + 1);
        assert(splice_one(a[i]) + (splice_at(a, i + 1) + splice_spec(b)) =~= (splice_one(a[i])
            + splice_at(a, i + 1)) + splice_spec(b));
    }
}

/// Splicing a run free of table-header and table end events keeps it
/// unchanged.
proof fn lemma_splice_plain(rows: Seq<SAnnotated>, i: int)
    requires
        0 <= i <= rows.len(),
        forall|k: int|
            0 <= k < rows.len() ==> #[trigger] splice_one(rows[k]) == seq![rows[k]],
    ensures
        splice_at(rows, i) == rows.skip(i),
    decreases rows.len() - i,
{
    if i == rows.len() {
        assert(rows.skip(i) =~= Seq::<SAnnotated>::empty());
    } else {
        lemma_splice_plain(rows, i + 1);
        assert(seq![rows[i]] + rows.skip(i + 1) =~= rows.skip(i));
    }
}

/// Law: a table subtree with one header and any body rows emits, in order,
/// the header's end, a synthetic table body start, the body rows
/// unchanged, a synthetic table body end, and the table's end — for any
/// surrounding stream.
pub proof fn lemma_table_synthesis(
    pre: Seq<SAnnotated>,
    header_end: SAnnotated,
    rows: Seq<SAnnotated>,
    table_end: SAnnotated,
)
    requires
        header_end.event == (SEvent::EndTag { tag: TagKind::TableHeader }),
        table_end.event == (SEvent::EndTag { tag: TagKind::Table }),
        forall|k: int|
            0 <= k < rows.len() ==> !(#[trigger] rows[k].event matches SEvent::EndTag { tag }
                && (tag == TagKind::TableHeader || tag == TagKind::Table)),
    ensures
        splice_spec(pre + seq![header_end] + rows + seq![table_end]) == splice_spec(pre) + seq![
            header_end,
            synth_body_start(header_end),
        ] + rows + seq![synth_body_end(table_end), table_end],
{
    let h = seq![header_end];
    let t = seq![table_end];
    assert(forall|k: int| 0 <= k < rows.len() ==> #[trigger] splice_one(rows[k]) == seq![rows[k]]);
    lemma_splice_append_at(pre + h + rows, t, 0);
    lemma_splice_append_at(pre + h, rows, 0);
    lemma_splice_append_at(pre, h, 0);
    lemma_splice_plain(rows, 0);
    assert(rows.skip(0) =~= rows);
    assert(splice_at(h, 1) =~= Seq::<SAnnotated>::empty());
    assert(splice_one(header_end) + Seq::<SAnnotated>::empty() =~= splice_one(header_end));
    assert(splice_spec(h) =~= seq![header_end, synth_body_start(header_end)]);
    assert(splice_at(t, 1) =~= Seq::<SAnnotated>::empty());
    assert(splice_one(table_end) + Seq::<SAnnotated>::empty() =~= splice_one(table_end));
    assert(splice_spec(t) =~= seq![synth_body_end(table_end), table_end]);
    assert(((splice_spec(pre) + seq![header_end, synth_body_start(header_end)]) + rows) + seq![
        synth_body_end(table_end),
        table_end,
    ] =~= splice_spec(pre) + seq![header_end, synth_body_start(header_end)] + rows + seq![
        synth_body_end(table_end),
        table_end,
    ]);
}

} // verus!
