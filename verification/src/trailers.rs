//! The trailer buffer: when a trailer-capable start event arrives, the
//! stream switches from streaming to buffering, accumulating the whole
//! subtree (nested trailer-capable subtrees are resolved first), and when
//! the subtree closes, a trailer produced by its end event mutates the
//! buffered start event's attributes before the run is released in order.

use vstd::prelude::*;

use crate::events::{
    AnnotatedEvent, ClassifiedEvent, SAnnotated, SAttrs, SClassified, SEvent, TagKind,
    cstream_model, stream_model,
};

verus! {

/// Which tags support trailers: all heading levels.
pub open spec fn supports_trailers(tag: TagKind) -> bool {
    match tag {
        TagKind::Heading1 => true,
        TagKind::Heading2 => true,
        TagKind::Heading3 => true,
        TagKind::Heading4 => true,
        TagKind::Heading5 => true,
        TagKind::Heading6 => true,
        _ => false,
    }
}

/// Checks if a tag supports trailers.  Currently headlines are the only
/// tags supporting trailers.
pub fn tag_supports_trailers(tag: TagKind) -> (r: bool)
    ensures
        r == supports_trailers(tag),
{
    match tag {
        TagKind::Heading1 => true,
        TagKind::Heading2 => true,
        TagKind::Heading3 => true,
        TagKind::Heading4 => true,
        TagKind::Heading5 => true,
        TagKind::Heading6 => true,
        _ => false,
    }
}

/// Whether this event is a start event whose tag supports trailers.
pub open spec fn is_capable_start(m: SAnnotated) -> bool {
    match m.event {
        SEvent::StartTag { tag, .. } => supports_trailers(tag),
        _ => false,
    }
}

/// Whether this event is an end event.
pub open spec fn is_end(m: SAnnotated) -> bool {
    m.event is EndTag
}

/// Whether this event is a start event.
pub open spec fn is_start(m: SAnnotated) -> bool {
    m.event is StartTag
}

/// Sets the `id` attribute of a start event.
pub open spec fn set_id(m: SAnnotated, id: Seq<u8>) -> SAnnotated {
    match m.event {
        SEvent::StartTag { tag, attrs } => SAnnotated {
            event: SEvent::StartTag {
                tag,
                attrs: SAttrs { id: Option::Some(id), ..attrs },
            },
            location: m.location,
        },
        _ => m,
    }
}

/// Attaches a trailer to the first event of a resolved buffer.
pub open spec fn apply_trailer(buf: Seq<SAnnotated>, tr: Option<Seq<u8>>) -> Seq<SAnnotated> {
    match tr {
        Option::None => buf,
        Option::Some(id) => if buf.len() > 0 && is_start(buf[0]) {
            buf.update(0, set_id(buf[0], id))
        } else {
            buf
        },
    }
}

/// The pending buffers, outermost first, each with the number of its still
/// open tags.
pub open spec fn flatten_bufs(stack: Seq<(Seq<SAnnotated>, int)>) -> Seq<SAnnotated>
    decreases stack.len(),
{
    if stack.len() == 0 {
        Seq::empty()
    } else {
        flatten_bufs(stack.drop_last()) + stack.last().0
    }
}

/// Replaces the innermost pending buffer.
pub open spec fn update_last(
    stack: Seq<(Seq<SAnnotated>, int)>,
    entry: (Seq<SAnnotated>, int),
) -> Seq<(Seq<SAnnotated>, int)> {
    stack.update(stack.len() - 1, entry)
}

/// Buffers events from index `i` until every pending buffer has closed,
/// resolving trailers; returns the released events appended to `out`, and
/// the index of the first unconsumed event.  An exhausted stream releases
/// the pending buffers as they are.
pub open spec fn collect_fold(
    evs: Seq<SClassified>,
    i: int,
    out: Seq<SAnnotated>,
    stack: Seq<(Seq<SAnnotated>, int)>,
) -> (Seq<SAnnotated>, int)
    decreases evs.len() - i,
    when 0 <= i
{
    if stack.len() == 0 {
        (out, i)
    } else if i >= evs.len() {
        (out + flatten_bufs(stack), i)
    } else {
        let c = evs[i];
        let m = c.event;
        let buf = stack.last().0;
        let d = stack.last().1;
        if is_capable_start(m) {
            collect_fold(evs, i + 1, out, stack.push((seq![m], 1)))
        } else if is_start(m) {
            collect_fold(evs, i + 1, out, update_last(stack, (buf.push(m), d + 1)))
        } else if is_end(m) {
            if d == 1 {
                let resolved = apply_trailer(buf.push(m), c.trailer);
                if stack.len() == 1 {
                    collect_fold(evs, i + 1, out + resolved, Seq::empty())
                } else {
                    let parent = stack[stack.len() - 2];
                    collect_fold(
                        evs,
                        i + 1,
                        out,
                        update_last(stack.drop_last(), (parent.0 + resolved, parent.1)),
                    )
                }
            } else {
                collect_fold(evs, i + 1, out, update_last(stack, (buf.push(m), d - 1)))
            }
        } else {
            collect_fold(evs, i + 1, out, update_last(stack, (buf.push(m), d)))
        }
    }
}

/// Collecting never moves backwards and stays within the stream when it
/// started inside it.
pub proof fn lemma_collect_bounds(
    evs: Seq<SClassified>,
    i: int,
    out: Seq<SAnnotated>,
    stack: Seq<(Seq<SAnnotated>, int)>,
)
    requires
        0 <= i <= evs.len(),
    ensures
        i <= collect_fold(evs, i, out, stack).1 <= evs.len(),
    decreases evs.len() - i,
{
    if stack.len() == 0 {
    } else if i >= evs.len() {
    } else {
        let c = evs[i];
        let m = c.event;
        let buf = stack.last().0;
        let d = stack.last().1;
        if is_capable_start(m) {
            lemma_collect_bounds(evs, i + 1, out, stack.push((seq![m], 1)));
        } else if is_start(m) {
            lemma_collect_bounds(evs, i + 1, out, update_last(stack, (buf.push(m), d + 1)));
        } else if is_end(m) {
            if d == 1 {
                let resolved = apply_trailer(buf.push(m), c.trailer);
                if stack.len() == 1 {
                    lemma_collect_bounds(evs, i + 1, out + resolved, Seq::empty());
                } else {
                    let parent = stack[stack.len() - 2];
                    lemma_collect_bounds(
                        evs,
                        i + 1,
                        out,
                        update_last(stack.drop_last(), (parent.0 + resolved, parent.1)),
                    );
                }
            } else {
                lemma_collect_bounds(evs, i + 1, out, update_last(stack, (buf.push(m), d - 1)));
            }
        } else {
            lemma_collect_bounds(evs, i + 1, out, update_last(stack, (buf.push(m), d)));
        }
    }
}

/// The stream with trailers attached, from index `i` on: trailer-capable
/// start events buffer their whole subtree, everything else streams
/// through, its trailer discarded.
pub open spec fn attach_spec(evs: Seq<SClassified>, i: int) -> Seq<SAnnotated>
    decreases evs.len() - i,
    when 0 <= i
    via attach_spec_dec
{
    if i >= evs.len() {
        Seq::empty()
    } else if is_capable_start(evs[i].event) {
        let r = collect_fold(evs, i + 1, Seq::empty(), seq![(seq![evs[i].event], 1int)]);
        r.0 + attach_spec(evs, r.1)
    } else {
        seq![evs[i].event] + attach_spec(evs, i + 1)
    }
}

#[via_fn]
proof fn attach_spec_dec(evs: Seq<SClassified>, i: int) {
    if 0 <= i < evs.len() && is_capable_start(evs[i].event) {
        lemma_collect_bounds(evs, i + 1, Seq::empty(), seq![(seq![evs[i].event], 1int)]);
    }
}

/// Model of the exec buffer stack.
pub open spec fn bufs_model(s: Seq<(Vec<AnnotatedEvent>, usize)>) -> Seq<(Seq<SAnnotated>, int)> {
    s.map_values(|p: (Vec<AnnotatedEvent>, usize)| (stream_model(p.0@), p.1 as int))
}

/// Recursively attaches trailers to start tags: buffers the subtree of the
/// given (already consumed) trailer-capable start event from the front of
/// `rest`, resolving nested subtrees first, and returns the resolved run.
pub fn buffer_for_trailers(event: AnnotatedEvent, rest: &mut Vec<ClassifiedEvent>) -> (buf: Vec<
    AnnotatedEvent,
>)
    requires
        old(rest)@.len() < usize::MAX,
    ensures
        ({
            let r = collect_fold(
                cstream_model(old(rest)@),
                0,
                Seq::empty(),
                seq![(seq![event@], 1int)],
            );
            stream_model(buf@) == r.0 && final(rest)@ == old(rest)@.skip(r.1)
        }),
{
    let ghost evs = cstream_model(rest@);
    let mut out: Vec<AnnotatedEvent> = Vec::new();
    let mut stack: Vec<(Vec<AnnotatedEvent>, usize)> = Vec::new();
    let ghost mut i: int = 0;
    let mut first: Vec<AnnotatedEvent> = Vec::new();
    first.push(event);
    stack.push((first, 1));
    proof {
        assert(stream_model(first@) =~= seq![event@]);
        assert(bufs_model(stack@) =~= seq![(seq![event@], 1int)]);
        assert(stream_model(out@) =~= Seq::<SAnnotated>::empty());
        assert(rest@.skip(0) =~= rest@);
        lemma_collect_bounds(evs, 0, Seq::empty(), seq![(seq![event@], 1int)]);
    }
    let ghost target = collect_fold(evs, 0, Seq::empty(), seq![(seq![event@], 1int)]);
    while stack.len() > 0 && rest.len() > 0
        invariant
            0 <= i <= evs.len(),
            evs == cstream_model(old(rest)@),
            target == collect_fold(evs, 0, Seq::empty(), seq![(seq![event@], 1int)]),
            rest@ == old(rest)@.skip(i),
            evs.len() == old(rest)@.len() < usize::MAX,
            collect_fold(evs, i, stream_model(out@), bufs_model(stack@)) == target,
            forall|k: int| 0 <= k < stack@.len() ==> 1 <= #[trigger] stack@[k].1 <= i + 1,
        decreases evs.len() - i,
    {
        let ghost out0 = stream_model(out@);
        let ghost stack0 = bufs_model(stack@);
        proof {
            assert(cstream_model(old(rest)@.skip(i)) =~= cstream_model(old(rest)@).skip(i));
            assert(rest@[0]@ == evs[i]);
            assert(old(rest)@.skip(i).remove(0) =~= old(rest)@.skip(i + 1));
        }
        let c = rest.remove(0);
        let ghost cm = c@;
        let ev = c.event;
        let mut capable = false;
        let mut starts = false;
        let mut ends = false;
        match &ev.event {
            crate::events::EventKind::StartTag { tag, .. } => {
                starts = true;
                capable = tag_supports_trailers(*tag);
            },
            crate::events::EventKind::EndTag { .. } => {
                ends = true;
            },
            _ => {},
        }
        proof {
            assert(capable == is_capable_start(cm.event));
            assert(starts == is_start(cm.event));
            assert(ends == is_end(cm.event));
        }
        if capable {
            let mut nb: Vec<AnnotatedEvent> = Vec::new();
            nb.push(ev);
            proof {
                assert(stream_model(nb@) =~= seq![cm.event]);
            }
            stack.push((nb, 1));
            proof {
                assert(bufs_model(stack@) =~= stack0.push((seq![cm.event], 1int)));
                i = i + 1;
            }
        } else {
            // the stack is non-empty here
            let (mut buf, d) = stack.pop().unwrap();
            let ghost bm = stream_model(buf@);
            if starts {
                buf.push(ev);
                proof {
                    assert(stream_model(buf@) =~= bm.push(cm.event));
                }
                stack.push((buf, d + 1));
                proof {
                    assert(bufs_model(stack@) =~= update_last(stack0, (bm.push(cm.event), d + 1)));
                    i = i + 1;
                }
            } else if ends {
                if d == 1 {
                    buf.push(ev);
                    proof {
                        assert(stream_model(buf@) =~= bm.push(cm.event));
                    }
                    let mut resolved = buf;
                    match c.trailer {
                        Some(crate::events::Trailer::Id(id)) => {
                            let head_is_start = match &resolved[0].event {
                                crate::events::EventKind::StartTag { .. } => true,
                                _ => false,
                            };
                            if head_is_start {
                                let old_head = resolved.remove(0);
                                let new_head = set_id_exec(old_head, id);
                                resolved.insert(0, new_head);
                                proof {
                                    assert(stream_model(resolved@) =~= apply_trailer(
                                        bm.push(cm.event),
                                        cm.trailer,
                                    ));
                                }
                            } else {
                                proof {
                                    assert(stream_model(resolved@) =~= apply_trailer(
                                        bm.push(cm.event),
                                        cm.trailer,
                                    ));
                                }
                            }
                        },
                        None => {
                            proof {
                                assert(stream_model(resolved@) =~= apply_trailer(
                                    bm.push(cm.event),
                                    cm.trailer,
                                ));
                            }
                        },
                    }
                    if stack.len() == 0 {
                        let mut resolved = resolved;
                        out.append(&mut resolved);
                        proof {
                            assert(stream_model(out@) =~= out0 + apply_trailer(
                                bm.push(cm.event),
                                cm.trailer,
                            ));
                            assert(bufs_model(stack@) =~= Seq::<(Seq<SAnnotated>, int)>::empty());
                            i = i + 1;
                        }
                    } else {
                        let (mut pbuf, pd) = stack.pop().unwrap();
                        let ghost pm = stream_model(pbuf@);
                        let mut resolved = resolved;
                        pbuf.append(&mut resolved);
                        proof {
                            assert(stream_model(pbuf@) =~= pm + apply_trailer(
                                bm.push(cm.event),
                                cm.trailer,
                            ));
                        }
                        stack.push((pbuf, pd));
                        proof {
                            assert(bufs_model(stack@) =~= update_last(
                                stack0.drop_last(),
                                (pm + apply_trailer(bm.push(cm.event), cm.trailer), pd as int),
                            ));
                            i = i + 1;
                        }
                    }
                } else {
                    buf.push(ev);
                    proof {
                        assert(stream_model(buf@) =~= bm.push(cm.event));
                    }
                    stack.push((buf, d - 1));
                    proof {
                        assert(bufs_model(stack@) =~= update_last(
                            stack0,
                            (bm.push(cm.event), d - 1),
                        ));
                        i = i + 1;
                    }
                }
            } else {
                buf.push(ev);
                proof {
                    assert(stream_model(buf@) =~= bm.push(cm.event));
                }
                stack.push((buf, d));
                proof {
                    assert(bufs_model(stack@) =~= update_last(stack0, (bm.push(cm.event), d as int)));
                    i = i + 1;
                }
            }
        }
        proof {
            lemma_collect_bounds(evs, i, stream_model(out@), bufs_model(stack@));
        }
    }
    // release anything still pending, outermost first
    proof {
        if stack@.len() > 0 {
            assert(i >= evs.len());
            assert(collect_fold(evs, i, stream_model(out@), bufs_model(stack@)) == (
                stream_model(out@) + flatten_bufs(bufs_model(stack@)),
                i,
            ));
        } else {
            assert(flatten_bufs(bufs_model(stack@)) =~= Seq::<SAnnotated>::empty());
            assert(stream_model(out@) + Seq::<SAnnotated>::empty() =~= stream_model(out@));
        }
    }
    let ghost final_i = i;
    while stack.len() > 0
        invariant
            rest@ == old(rest)@.skip(final_i),
            target.1 == final_i,
            stream_model(out@) + flatten_bufs(bufs_model(stack@)) == target.0,
        decreases stack@.len(),
    {
        let ghost out0 = stream_model(out@);
        let ghost stack0 = bufs_model(stack@);
        proof {
            lemma_flatten_front(stack0);
        }
        let mut entry = stack.remove(0);
        out.append(&mut entry.0);
        proof {
            assert(stream_model(out@) =~= out0 + stack0[0].0);
            assert(bufs_model(stack@) =~= stack0.remove(0));
            assert(out0 + (stack0[0].0 + flatten_bufs(stack0.remove(0))) =~= (out0 + stack0[0].0)
                + flatten_bufs(stack0.remove(0)));
        }
    }
    proof {
        assert(flatten_bufs(Seq::<(Seq<SAnnotated>, int)>::empty()) =~= Seq::<SAnnotated>::empty());
        assert(stream_model(out@) + Seq::<SAnnotated>::empty() =~= stream_model(out@));
    }
    out
}

/// A non-empty buffer stack flattens to its first buffer followed by the
/// rest.
proof fn lemma_flatten_front(s: Seq<(Seq<SAnnotated>, int)>)
    requires
        s.len() > 0,
    ensures
        flatten_bufs(s) == s[0].0 + flatten_bufs(s.remove(0)),
    decreases s.len(),
{
    if s.len() == 1 {
        assert(s.drop_last() =~= Seq::<(Seq<SAnnotated>, int)>::empty());
        assert(s.remove(0) =~= Seq::<(Seq<SAnnotated>, int)>::empty());
        assert(flatten_bufs(s) =~= s[0].0 + flatten_bufs(s.remove(0)));
    } else {
        lemma_flatten_front(s.drop_last());
        assert(s.remove(0).drop_last() =~= s.drop_last().remove(0));
        assert(s.remove(0).last() == s.last());
        assert(s.drop_last()[0] == s[0]);
        assert((s[0].0 + flatten_bufs(s.drop_last().remove(0))) + s.last().0 =~= s[0].0 + (
        flatten_bufs(s.drop_last().remove(0)) + s.last().0));
        assert(flatten_bufs(s.remove(0)) =~= flatten_bufs(s.remove(0).drop_last())
            + s.remove(0).last().0);
    }
}

/// Sets the `id` attribute of a start event.
fn set_id_exec(ev: AnnotatedEvent, id: Vec<u8>) -> (r: AnnotatedEvent)
    ensures
        r@ == set_id(ev@, id@),
{
    match ev.event {
        crate::events::EventKind::StartTag { tag, attrs } => {
            let mut attrs = attrs;
            attrs.id = Some(id);
            AnnotatedEvent {
                event: crate::events::EventKind::StartTag { tag, attrs },
                location: ev.location,
            }
        },
        other => AnnotatedEvent { event: other, location: ev.location },
    }
}

} // verus!
