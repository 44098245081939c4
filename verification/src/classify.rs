//! The extension classifier: the fused pass over the primitive stream that
//! resolves locations, flattens code blocks, images and directive bodies,
//! reclassifies text/code pairs into interpreted text with one token of
//! lookahead, strips heading-id trailers, and assigns table cell alignments.
//!
//! The pass is specified by [`classify_step`], which describes how one
//! primitive event (or one lookahead pair) is turned into classified output
//! events and a new state, and by [`classify_at`], which folds the step over
//! the stream.  A step yields nothing when the tokenizer collaborator broke
//! its contract: a byte range outside the source, a heading level outside 1
//! through 6, a table event outside a table, an end event with no open
//! start, or a stream that ends with open tags.

use vstd::prelude::*;

use crate::events::{
    AnnotatedEvent, Attrs, CellAlignment, ClassifiedEvent, EventKind, SAttrs, SClassified,
    SAnnotated, SEvent, StreamError, TagKind, Trailer, cstream_model,
};
use crate::front_matter::fm_bounds;
use crate::location::{Location, column_at, lemma_column_at_bound, line_at, location_of, resolve_location};
use crate::pattern::{
    directive_arg_start, directive_match, directive_name_end, find_heading_id, find_role_suffix,
    hid_start, lemma_role_scan_match, match_directive, role_end, role_start, ws_end,
};
use crate::prim::{Prim, PrimEvent, PrimTag};
use crate::front_matter::split_and_parse_front_matter;
use crate::raw::{copy_range, lemma_raw_len_bound, lemma_raw_shift, raw_flatten, raw_len, read_raw};
use crate::yaml::yaml_parses;

verus! {

/// Per-table state: the column alignments the table was started with, the
/// current cell index, and whether the current row is the header row.
pub struct TableState {
    pub alignments: Vec<CellAlignment>,
    pub cell_is_head: bool,
    pub cell_index: usize,
}

/// Model of [`TableState`].
pub struct STable {
    pub alignments: Seq<CellAlignment>,
    pub cell_is_head: bool,
    pub cell_index: int,
}

impl View for TableState {
    type V = STable;

    open spec fn view(&self) -> STable {
        STable {
            alignments: self.alignments@,
            cell_is_head: self.cell_is_head,
            cell_index: self.cell_index as int,
        }
    }
}

/// Model of the optional table state.
pub open spec fn table_model(t: Option<TableState>) -> Option<STable> {
    match t {
        Option::None => Option::None,
        Option::Some(ts) => Option::Some(ts@),
    }
}

/// A classified event assembled from its parts.
pub open spec fn cls(ev: SEvent, loc: Location, tr: Option<Seq<u8>>) -> SClassified {
    SClassified { event: SAnnotated { event: ev, location: loc }, trailer: tr }
}

/// What one classifier step produces: the events it emits, the index of the
/// next unconsumed primitive event, and the new stack and table state.
pub struct StepResult {
    pub emitted: Seq<SClassified>,
    pub next: int,
    pub stack: Seq<TagKind>,
    pub table: Option<STable>,
}

/// Attributes with only the given fields set.
pub open spec fn sattrs(
    id: Option<Seq<u8>>,
    target: Option<Seq<u8>>,
    title: Option<Seq<u8>>,
    start: Option<u32>,
    alignment: Option<CellAlignment>,
) -> SAttrs {
    SAttrs { id, target, title, start, alignment }
}

/// One emitted start event: the tag is pushed onto the stack.
pub open spec fn push_start(
    tag: TagKind,
    attrs: SAttrs,
    loc: Location,
    i: int,
    stack: Seq<TagKind>,
    table: Option<STable>,
) -> Option<StepResult> {
    Option::Some(
        StepResult {
            emitted: seq![cls(SEvent::StartTag { tag, attrs }, loc, Option::None)],
            next: i + 1,
            stack: stack.push(tag),
            table,
        },
    )
}

/// One emitted leaf event consuming one primitive event.
pub open spec fn emit_leaf(
    ev: SEvent,
    loc: Location,
    i: int,
    stack: Seq<TagKind>,
    table: Option<STable>,
) -> Option<StepResult> {
    Option::Some(
        StepResult {
            emitted: seq![cls(ev, loc, Option::None)],
            next: i + 1,
            stack,
            table,
        },
    )
}

/// The heading tag of a level between 1 and 6.
pub open spec fn heading_tag(n: u32) -> TagKind {
    if n == 1 {
        TagKind::Heading1
    } else if n == 2 {
        TagKind::Heading2
    } else if n == 3 {
        TagKind::Heading3
    } else if n == 4 {
        TagKind::Heading4
    } else if n == 5 {
        TagKind::Heading5
    } else {
        TagKind::Heading6
    }
}

/// Whether the byte range of this primitive event lies inside the source.
pub open spec fn range_ok(p: PrimEvent, src: Seq<u8>) -> bool {
    p.start <= p.end && p.end <= src.len()
}

/// The directive event a fenced block with language line `lang` and
/// flattened body `body` resolves to: name and optional argument from the
/// header, the body split by the front matter splitter, and front matter
/// present exactly when the split matched and its content deserializes.
pub open spec fn directive_event(lang: Seq<u8>, body: Seq<u8>) -> SEvent {
    let j = directive_name_end(lang);
    let a = directive_arg_start(lang);
    let name = lang.subrange(1, j);
    let arg = lang.subrange(a, lang.len() as int);
    let present = match fm_bounds(body) {
        Option::Some(b) => yaml_parses(body.subrange(b.0, b.1)),
        Option::None => false,
    };
    SEvent::Directive {
        name,
        argument: if arg.len() == 0 {
            Option::None
        } else {
            Option::Some(arg)
        },
        front_matter: present,
        body: if present {
            body.skip(fm_bounds(body)->Some_0.2)
        } else {
            body
        },
    }
}

/// Handling of a start event with the given tag.
pub open spec fn step_start(
    src: Seq<u8>,
    prims: Seq<PrimEvent>,
    i: int,
    stack: Seq<TagKind>,
    table: Option<STable>,
    tag: PrimTag,
    loc: Location,
) -> Option<StepResult> {
    let none = Option::<Seq<u8>>::None;
    match tag {
        PrimTag::Paragraph => push_start(
            TagKind::Paragraph,
            SAttrs::empty(),
            loc,
            i,
            stack,
            table,
        ),
        PrimTag::Heading(n) => if 1 <= n <= 6 {
            push_start(heading_tag(n), SAttrs::empty(), loc, i, stack, table)
        } else {
            Option::None
        },
        PrimTag::BlockQuote => push_start(
            TagKind::BlockQuote,
            SAttrs::empty(),
            loc,
            i,
            stack,
            table,
        ),
        PrimTag::FencedCodeBlock(lang) => {
            let body = raw_flatten(prims, i + 1, 1);
            let next = i + 1 + raw_len(prims, i + 1, 1);
            let ev = if directive_match(lang@) {
                directive_event(lang@, body)
            } else {
                SEvent::CodeBlock { language: Option::Some(lang@), code: body }
            };
            Option::Some(StepResult { emitted: seq![cls(ev, loc, Option::None)], next, stack, table })
        },
        PrimTag::IndentedCodeBlock => {
            let body = raw_flatten(prims, i + 1, 1);
            let next = i + 1 + raw_len(prims, i + 1, 1);
            let ev = SEvent::CodeBlock { language: Option::None, code: body };
            Option::Some(StepResult { emitted: seq![cls(ev, loc, Option::None)], next, stack, table })
        },
        PrimTag::List(opt) => match opt {
            Option::None => push_start(
                TagKind::UnorderedList,
                SAttrs::empty(),
                loc,
                i,
                stack,
                table,
            ),
            Option::Some(n) => push_start(
                TagKind::OrderedList,
                sattrs(none, none, none, Option::Some(n as u32), Option::None),
                loc,
                i,
                stack,
                table,
            ),
        },
        PrimTag::Item => push_start(TagKind::ListItem, SAttrs::empty(), loc, i, stack, table),
        PrimTag::FootnoteDefinition(id) => push_start(
            TagKind::FootnoteDefinition,
            sattrs(Option::Some(id@), none, none, Option::None, Option::None),
            loc,
            i,
            stack,
            table,
        ),
        PrimTag::Table(aligns) => push_start(
            TagKind::Table,
            SAttrs::empty(),
            loc,
            i,
            stack,
            Option::Some(STable { alignments: aligns@, cell_is_head: false, cell_index: 0 }),
        ),
        PrimTag::TableHead => match table {
            Option::None => Option::None,
            Option::Some(t) => push_start(
                TagKind::TableHeader,
                SAttrs::empty(),
                loc,
                i,
                stack,
                Option::Some(STable { alignments: t.alignments, cell_is_head: true, cell_index: 0 }),
            ),
        },
        PrimTag::TableRow => match table {
            Option::None => Option::None,
            Option::Some(t) => push_start(
                TagKind::TableRow,
                SAttrs::empty(),
                loc,
                i,
                stack,
                Option::Some(
                    STable { alignments: t.alignments, cell_is_head: false, cell_index: 0 },
                ),
            ),
        },
        PrimTag::TableCell => match table {
            Option::None => Option::None,
            Option::Some(t) => {
                let al = if 0 <= t.cell_index < t.alignments.len() {
                    t.alignments[t.cell_index]
                } else {
                    CellAlignment::Unset
                };
                let cell_tag = if t.cell_is_head {
                    TagKind::TableHead
                } else {
                    TagKind::TableCell
                };
                push_start(
                    cell_tag,
                    sattrs(none, none, none, Option::None, Option::Some(al)),
                    loc,
                    i,
                    stack,
                    Option::Some(
                        STable {
                            alignments: t.alignments,
                            cell_is_head: t.cell_is_head,
                            cell_index: t.cell_index + 1,
                        },
                    ),
                )
            },
        },
        PrimTag::Emphasis => push_start(TagKind::Emphasis, SAttrs::empty(), loc, i, stack, table),
        PrimTag::Strong => push_start(TagKind::Strong, SAttrs::empty(), loc, i, stack, table),
        PrimTag::Strikethrough => push_start(
            TagKind::Strikethrough,
            SAttrs::empty(),
            loc,
            i,
            stack,
            table,
        ),
        PrimTag::Link(target, title) => push_start(
            TagKind::Link,
            sattrs(
                none,
                Option::Some(target@),
                if title@.len() == 0 {
                    Option::None
                } else {
                    Option::Some(title@)
                },
                Option::None,
                Option::None,
            ),
            loc,
            i,
            stack,
            table,
        ),
        PrimTag::Image(target, title) => {
            let alt = raw_flatten(prims, i + 1, 1);
            let next = i + 1 + raw_len(prims, i + 1, 1);
            let ev = SEvent::Image {
                target: target@,
                alt: if alt.len() == 0 {
                    Option::None
                } else {
                    Option::Some(alt)
                },
                title: if title@.len() == 0 {
                    Option::None
                } else {
                    Option::Some(title@)
                },
            };
            Option::Some(StepResult { emitted: seq![cls(ev, loc, Option::None)], next, stack, table })
        },
    }
}

/// Whether a primitive event is the end of a heading.
pub open spec fn is_heading_end(p: Prim) -> bool {
    match p {
        Prim::End(PrimTag::Heading(_)) => true,
        _ => false,
    }
}

/// Whether the role reclassification may fire: the next event is a code
/// span whose range lies in the source, and widening it leftward by the
/// stripped suffix stays within its line, its column and the text event's
/// own range.  When this fails the pattern is left in the text unchanged.
pub open spec fn role_guard(src: Seq<u8>, p: PrimEvent, np: PrimEvent, adj: int) -> bool {
    &&& range_ok(np, src)
    &&& adj <= column_at(src, np.start as int)
    &&& adj <= p.end - p.start
    &&& p.start + adj <= np.start
}

/// The location of an interpreted text event: the code span's location
/// widened leftward over the stripped role marker.
pub open spec fn role_loc(src: Seq<u8>, np: PrimEvent, adj: int) -> Location {
    Location {
        offset: (np.start - adj) as usize,
        len: (np.end - np.start + adj) as usize,
        line: line_at(src, np.start as int) as usize,
        column: (column_at(src, np.start as int) - adj) as usize,
    }
}

/// A location shortened by the stripped suffix.
pub open spec fn shrink_loc(loc: Location, adj: int) -> Location {
    Location {
        offset: loc.offset,
        len: (loc.len - adj) as usize,
        line: loc.line,
        column: loc.column,
    }
}

/// Handling of a text event, with one token of lookahead for role
/// reclassification and heading-id trailers.
pub open spec fn step_text(
    src: Seq<u8>,
    prims: Seq<PrimEvent>,
    i: int,
    stack: Seq<TagKind>,
    table: Option<STable>,
    t: Seq<u8>,
    loc: Location,
) -> Option<StepResult> {
    let p = prims[i];
    if i + 1 < prims.len() && prims[i + 1].prim is Code && role_start(t) is Some && role_guard(
        src,
        p,
        prims[i + 1],
        t.len() - role_start(t)->Some_0,
    ) {
        let rs = role_start(t)->Some_0;
        let adj = t.len() - rs;
        let np = prims[i + 1];
        let code = np.prim->Code_0;
        Option::Some(
            StepResult {
                emitted: seq![
                    cls(SEvent::Text { text: t.subrange(0, rs) }, shrink_loc(loc, adj), Option::None),
                    cls(
                        SEvent::InterpretedText {
                            text: code@,
                            role: t.subrange(rs + 1, t.len() - 1),
                        },
                        role_loc(src, np, adj),
                        Option::None,
                    ),
                ],
                next: i + 2,
                stack,
                table,
            },
        )
    } else if i + 1 < prims.len() && is_heading_end(prims[i + 1].prim) && hid_start(t) is Some
        && t.len() - hid_start(t)->Some_0 <= p.end - p.start && range_ok(prims[i + 1], src) {
        let ps = hid_start(t)->Some_0;
        let adj = t.len() - ps;
        let a = ws_end(t, ps) + 2;
        let b = role_end(t, a);
        let np = prims[i + 1];
        if stack.len() == 0 {
            Option::None
        } else {
            Option::Some(
                StepResult {
                    emitted: seq![
                        cls(SEvent::Text { text: t.subrange(0, ps) }, shrink_loc(loc, adj), Option::None),
                        cls(
                            SEvent::EndTag { tag: stack.last() },
                            location_of(src, np.start as int, np.end as int),
                            Option::Some(t.subrange(a, b)),
                        ),
                    ],
                    next: i + 2,
                    stack: stack.drop_last(),
                    table,
                },
            )
        }
    } else {
        emit_leaf(SEvent::Text { text: t }, loc, i, stack, table)
    }
}

/// One step of the classifier at index `i` of the primitive stream.
pub open spec fn classify_step(
    src: Seq<u8>,
    prims: Seq<PrimEvent>,
    i: int,
    stack: Seq<TagKind>,
    table: Option<STable>,
) -> Option<StepResult> {
    let p = prims[i];
    if !range_ok(p, src) {
        Option::None
    } else {
        let loc = location_of(src, p.start as int, p.end as int);
        match p.prim {
            Prim::Start(tag) => step_start(src, prims, i, stack, table, tag, loc),
            Prim::End(_) => if stack.len() == 0 {
                Option::None
            } else {
                Option::Some(
                    StepResult {
                        emitted: seq![cls(SEvent::EndTag { tag: stack.last() }, loc, Option::None)],
                        next: i + 1,
                        stack: stack.drop_last(),
                        table,
                    },
                )
            },
            Prim::Text(t) => step_text(src, prims, i, stack, table, t@, loc),
            Prim::Code(c) => emit_leaf(SEvent::InlineCode { code: c@ }, loc, i, stack, table),
            Prim::Html(h) => emit_leaf(SEvent::RawHtml { html: h@ }, loc, i, stack, table),
            Prim::FootnoteReference(t) => emit_leaf(
                SEvent::FootnoteReference { target: t@ },
                loc,
                i,
                stack,
                table,
            ),
            Prim::SoftBreak => emit_leaf(SEvent::SoftBreak, loc, i, stack, table),
            Prim::HardBreak => emit_leaf(SEvent::HardBreak, loc, i, stack, table),
            Prim::Rule => emit_leaf(SEvent::Rule, loc, i, stack, table),
            Prim::TaskListMarker(c) => emit_leaf(
                SEvent::Checkbox { checked: c },
                loc,
                i,
                stack,
                table,
            ),
        }
    }
}

/// Every step consumes at least one primitive event and stays within the
/// stream.
pub proof fn lemma_step_advances(
    src: Seq<u8>,
    prims: Seq<PrimEvent>,
    i: int,
    stack: Seq<TagKind>,
    table: Option<STable>,
)
    requires
        0 <= i < prims.len(),
        classify_step(src, prims, i, stack, table) is Some,
    ensures
        i < classify_step(src, prims, i, stack, table)->Some_0.next <= prims.len(),
{
    lemma_raw_len_bound(prims, i + 1, 1);
}

/// The classified stream from index `i` on, given the open-tag stack and
/// the table state, or nothing if the tokenizer contract was broken.
pub open spec fn classify_at(
    src: Seq<u8>,
    prims: Seq<PrimEvent>,
    i: int,
    stack: Seq<TagKind>,
    table: Option<STable>,
) -> Option<Seq<SClassified>>
    decreases prims.len() - i,
    when 0 <= i
    via classify_at_dec
{
    if i >= prims.len() {
        if stack.len() == 0 {
            Option::Some(Seq::empty())
        } else {
            Option::None
        }
    } else {
        match classify_step(src, prims, i, stack, table) {
            Option::None => Option::None,
            Option::Some(st) => match classify_at(src, prims, st.next, st.stack, st.table) {
                Option::None => Option::None,
                Option::Some(rest) => Option::Some(st.emitted + rest),
            },
        }
    }
}

#[via_fn]
proof fn classify_at_dec(
    src: Seq<u8>,
    prims: Seq<PrimEvent>,
    i: int,
    stack: Seq<TagKind>,
    table: Option<STable>,
) {
    if 0 <= i < prims.len() {
        match classify_step(src, prims, i, stack, table) {
            Option::None => {},
            Option::Some(st) => {
                lemma_step_advances(src, prims, i, stack, table);
            },
        }
    }
}

/// Prepends already-produced output to the rest of a classification.
pub open spec fn prepend(
    out: Seq<SClassified>,
    rest: Option<Seq<SClassified>>,
) -> Option<Seq<SClassified>> {
    match rest {
        Option::None => Option::None,
        Option::Some(r) => Option::Some(out + r),
    }
}

/// Taking one step preserves the total classification.
proof fn lemma_step_preserves(
    src: Seq<u8>,
    prims: Seq<PrimEvent>,
    i: int,
    stack: Seq<TagKind>,
    table: Option<STable>,
    out: Seq<SClassified>,
    st: StepResult,
)
    requires
        0 <= i < prims.len(),
        classify_step(src, prims, i, stack, table) == Option::Some(st),
    ensures
        prepend(out + st.emitted, classify_at(src, prims, st.next, st.stack, st.table)) == prepend(
            out,
            classify_at(src, prims, i, stack, table),
        ),
{
    lemma_step_advances(src, prims, i, stack, table);
    match classify_at(src, prims, st.next, st.stack, st.table) {
        Option::None => {},
        Option::Some(rest) => {
            assert((out + st.emitted) + rest =~= out + (st.emitted + rest));
        },
    }
}

/// A failing step makes the whole classification fail.
proof fn lemma_step_none(
    src: Seq<u8>,
    prims: Seq<PrimEvent>,
    i: int,
    stack: Seq<TagKind>,
    table: Option<STable>,
)
    requires
        0 <= i < prims.len(),
        classify_step(src, prims, i, stack, table) is None,
    ensures
        classify_at(src, prims, i, stack, table) is None,
{
}

/// One pushed classified event extends the model by its own model.
proof fn lemma_push1(before: Seq<ClassifiedEvent>, after: Seq<ClassifiedEvent>, c: ClassifiedEvent)
    requires
        after == before.push(c),
    ensures
        cstream_model(after) == cstream_model(before) + seq![c@],
{
    assert(cstream_model(after) =~= cstream_model(before) + seq![c@]);
}

/// Two pushed classified events extend the model by their own models.
proof fn lemma_push2(
    before: Seq<ClassifiedEvent>,
    after: Seq<ClassifiedEvent>,
    c1: ClassifiedEvent,
    c2: ClassifiedEvent,
)
    requires
        after == before.push(c1).push(c2),
    ensures
        cstream_model(after) == cstream_model(before) + seq![c1@, c2@],
{
    assert(cstream_model(after) =~= cstream_model(before) + seq![c1@, c2@]);
}

/// A classified event without a trailer.
fn mk(ev: EventKind, loc: Location) -> (r: ClassifiedEvent)
    ensures
        r@ == cls(ev@, loc, Option::None),
{
    ClassifiedEvent { event: AnnotatedEvent { event: ev, location: loc }, trailer: None }
}

/// Runs the classifier over the whole primitive stream, resolving each
/// event's location against `src`.
///
/// Succeeds exactly when the specification-level classification of the
/// stream is defined, and then the output's model equals it; fails exactly
/// when the tokenizer contract was broken.
#[verifier::rlimit(100)]
pub fn classify(src: &[u8], prims: &mut Vec<PrimEvent>) -> (r: Result<
    Vec<ClassifiedEvent>,
    StreamError,
>)
    requires
        src@.len() < usize::MAX,
        old(prims)@.len() < usize::MAX,
    ensures
        match r {
            Result::Ok(out) => classify_at(src@, old(prims)@, 0, Seq::empty(), Option::None)
                == Option::Some(cstream_model(out@)),
            Result::Err(_) => classify_at(src@, old(prims)@, 0, Seq::empty(), Option::None)
                is None,
        },
{
    let ghost p0 = prims@;
    let mut out: Vec<ClassifiedEvent> = Vec::new();
    let mut stack: Vec<TagKind> = Vec::new();
    let mut table: Option<TableState> = None;
    let ghost mut i: int = 0;
    proof {
        assert(p0.skip(0) =~= p0);
    }
    while prims.len() > 0
        invariant
            p0 == old(prims)@,
            0 <= i <= p0.len() < usize::MAX,
            src@.len() < usize::MAX,
            prims@ == p0.skip(i),
            table_model(table) matches Option::Some(t) ==> t.cell_index <= i,
            prepend(cstream_model(out@), classify_at(src@, p0, i, stack@, table_model(table)))
                == classify_at(src@, p0, 0, Seq::empty(), Option::None),
        decreases p0.len() - i,
    {
        let ghost out0 = out@;
        let ghost stack0 = stack@;
        let ghost table0 = table_model(table);
        proof {
            assert(prims@[0] == p0[i]);
            assert(p0.skip(i).remove(0) =~= p0.skip(i + 1));
        }
        let p = prims.remove(0);
        if !(p.start <= p.end && p.end <= src.len()) {
            proof {
                assert(classify_step(src@, p0, i, stack0, table0) is None);
                lemma_step_none(src@, p0, i, stack0, table0);
            }
            return Err(StreamError);
        }
        let pstart = p.start;
        let pend = p.end;
        let loc = resolve_location(src, p.start, p.end);
        proof {
            assert(pstart == p0[i].start && pend == p0[i].end);
        }
        match p.prim {
            Prim::Start(start_tag) => {
                match start_tag {
                    PrimTag::FencedCodeBlock(lang) => {
                        proof {
                            lemma_raw_shift(p0, i + 1, i + 1, 1);
                            lemma_raw_len_bound(p0, i + 1, 1);
                        }
                        let body = read_raw(prims);
                        proof {
                            assert(p0.skip(i + 1).skip(raw_len(p0, i + 1, 1) as int) =~= p0.skip(
                                i + 1 + raw_len(p0, i + 1, 1),
                            ));
                        }
                        let ghost body_m = body@;
                        let cev = match match_directive(lang.as_slice()) {
                            Some((j, a)) => {
                                let name = copy_range(&lang, 1, j);
                                let arg = copy_range(&lang, a, lang.len());
                                let (fm, body2) = split_and_parse_front_matter(body);
                                let argument = if arg.len() == 0 {
                                    None
                                } else {
                                    Some(arg)
                                };
                                mk(
                                    EventKind::Directive {
                                        name,
                                        argument,
                                        front_matter: fm,
                                        body: body2,
                                    },
                                    loc,
                                )
                            },
                            None => mk(
                                EventKind::CodeBlock { language: Some(lang), code: body },
                                loc,
                            ),
                        };
                        let ghost cm = cev@;
                        out.push(cev);
                        proof {
                            let st = classify_step(src@, p0, i, stack0, table0)->Some_0;
                            assert(st.emitted =~= seq![cm]);
                            lemma_push1(out0, out@, cev);
                            lemma_step_preserves(src@, p0, i, stack0, table0, cstream_model(out0), st);
                            i = i + 1 + raw_len(p0, i + 1, 1);
                        }
                    },
                    PrimTag::IndentedCodeBlock => {
                        proof {
                            lemma_raw_shift(p0, i + 1, i + 1, 1);
                            lemma_raw_len_bound(p0, i + 1, 1);
                        }
                        let body = read_raw(prims);
                        proof {
                            assert(p0.skip(i + 1).skip(raw_len(p0, i + 1, 1) as int) =~= p0.skip(
                                i + 1 + raw_len(p0, i + 1, 1),
                            ));
                        }
                        let cev = mk(EventKind::CodeBlock { language: None, code: body }, loc);
                        let ghost cm = cev@;
                        out.push(cev);
                        proof {
                            let st = classify_step(src@, p0, i, stack0, table0)->Some_0;
                            assert(st.emitted =~= seq![cm]);
                            lemma_push1(out0, out@, cev);
                            lemma_step_preserves(src@, p0, i, stack0, table0, cstream_model(out0), st);
                            i = i + 1 + raw_len(p0, i + 1, 1);
                        }
                    },
                    PrimTag::Image(target, title) => {
                        proof {
                            lemma_raw_shift(p0, i + 1, i + 1, 1);
                            lemma_raw_len_bound(p0, i + 1, 1);
                        }
                        let alt = read_raw(prims);
                        proof {
                            assert(p0.skip(i + 1).skip(raw_len(p0, i + 1, 1) as int) =~= p0.skip(
                                i + 1 + raw_len(p0, i + 1, 1),
                            ));
                        }
                        let alt_opt = if alt.len() == 0 {
                            None
                        } else {
                            Some(alt)
                        };
                        let title_opt = if title.len() == 0 {
                            None
                        } else {
                            Some(title)
                        };
                        let cev = mk(
                            EventKind::Image { target, alt: alt_opt, title: title_opt },
                            loc,
                        );
                        let ghost cm = cev@;
                        out.push(cev);
                        proof {
                            let st = classify_step(src@, p0, i, stack0, table0)->Some_0;
                            assert(st.emitted =~= seq![cm]);
                            lemma_push1(out0, out@, cev);
                            lemma_step_preserves(src@, p0, i, stack0, table0, cstream_model(out0), st);
                            i = i + 1 + raw_len(p0, i + 1, 1);
                        }
                    },
                    _ => {
                        // a start event that opens a tag and pushes it
                        let mut attrs = Attrs::new();
                        let tag_opt: Option<TagKind> = match start_tag {
                            PrimTag::Paragraph => Some(TagKind::Paragraph),
                            PrimTag::Heading(n) => {
                                if 1 <= n && n <= 6 {
                                    Some(
                                        if n == 1 {
                                            TagKind::Heading1
                                        } else if n == 2 {
                                            TagKind::Heading2
                                        } else if n == 3 {
                                            TagKind::Heading3
                                        } else if n == 4 {
                                            TagKind::Heading4
                                        } else if n == 5 {
                                            TagKind::Heading5
                                        } else {
                                            TagKind::Heading6
                                        },
                                    )
                                } else {
                                    None
                                }
                            },
                            PrimTag::BlockQuote => Some(TagKind::BlockQuote),
                            PrimTag::List(opt_start) => match opt_start {
                                None => Some(TagKind::UnorderedList),
                                Some(n) => {
                                    attrs.start = Some(#[verifier::truncate] (n as u32));
                                    Some(TagKind::OrderedList)
                                },
                            },
                            PrimTag::Item => Some(TagKind::ListItem),
                            PrimTag::FootnoteDefinition(fid) => {
                                attrs.id = Some(fid);
                                Some(TagKind::FootnoteDefinition)
                            },
                            PrimTag::Table(aligns) => {
                                table = Some(
                                    TableState {
                                        alignments: aligns,
                                        cell_is_head: false,
                                        cell_index: 0,
                                    },
                                );
                                Some(TagKind::Table)
                            },
                            PrimTag::TableHead => match table {
                                Some(ts) => {
                                    table = Some(
                                        TableState {
                                            alignments: ts.alignments,
                                            cell_is_head: true,
                                            cell_index: 0,
                                        },
                                    );
                                    Some(TagKind::TableHeader)
                                },
                                None => None,
                            },
                            PrimTag::TableRow => match table {
                                Some(ts) => {
                                    table = Some(
                                        TableState {
                                            alignments: ts.alignments,
                                            cell_is_head: false,
                                            cell_index: 0,
                                        },
                                    );
                                    Some(TagKind::TableRow)
                                },
                                None => None,
                            },
                            PrimTag::TableCell => match table {
                                Some(ts) => {
                                    let al = if ts.cell_index < ts.alignments.len() {
                                        ts.alignments[ts.cell_index]
                                    } else {
                                        CellAlignment::Unset
                                    };
                                    let cell_tag = if ts.cell_is_head {
                                        TagKind::TableHead
                                    } else {
                                        TagKind::TableCell
                                    };
                                    attrs.alignment = Some(al);
                                    table = Some(
                                        TableState {
                                            alignments: ts.alignments,
                                            cell_is_head: ts.cell_is_head,
                                            cell_index: ts.cell_index + 1,
                                        },
                                    );
                                    Some(cell_tag)
                                },
                                None => None,
                            },
                            PrimTag::Emphasis => Some(TagKind::Emphasis),
                            PrimTag::Strong => Some(TagKind::Strong),
                            PrimTag::Strikethrough => Some(TagKind::Strikethrough),
                            PrimTag::Link(ltarget, ltitle) => {
                                attrs.target = Some(ltarget);
                                attrs.title = if ltitle.len() == 0 {
                                    None
                                } else {
                                    Some(ltitle)
                                };
                                Some(TagKind::Link)
                            },
                            PrimTag::FencedCodeBlock(_) => None,
                            PrimTag::IndentedCodeBlock => None,
                            PrimTag::Image(..) => None,
                        };
                        match tag_opt {
                            Some(tag) => {
                                let cev = mk(EventKind::StartTag { tag, attrs }, loc);
                                let ghost cm = cev@;
                                out.push(cev);
                                stack.push(tag);
                                proof {
                                    let st = classify_step(src@, p0, i, stack0, table0)->Some_0;
                                    assert(st.emitted =~= seq![cm]);
                                    lemma_push1(out0, out@, cev);
                                    lemma_step_preserves(
                                        src@,
                                        p0,
                                        i,
                                        stack0,
                                        table0,
                                        cstream_model(out0),
                                        st,
                                    );
                                    i = i + 1;
                                }
                            },
                            None => {
                                proof {
                                    assert(classify_step(src@, p0, i, stack0, table0) is None);
                                    lemma_step_none(src@, p0, i, stack0, table0);
                                }
                                return Err(StreamError);
                            },
                        }
                    },
                }
            },
            Prim::End(_) => {
                match stack.pop() {
                    Some(tag) => {
                        proof {
                            assert(stack@ =~= stack0.drop_last());
                        }
                        let cev = mk(EventKind::EndTag { tag }, loc);
                        let ghost cm = cev@;
                        out.push(cev);
                        proof {
                            let st = classify_step(src@, p0, i, stack0, table0)->Some_0;
                            assert(st.emitted =~= seq![cm]);
                            lemma_push1(out0, out@, cev);
                            lemma_step_preserves(src@, p0, i, stack0, table0, cstream_model(out0), st);
                            i = i + 1;
                        }
                    },
                    None => {
                        proof {
                            assert(classify_step(src@, p0, i, stack0, table0) is None);
                            lemma_step_none(src@, p0, i, stack0, table0);
                        }
                        return Err(StreamError);
                    },
                }
            },
            Prim::Text(t) => {
                let ghost tm = t@;
                proof {
                    assert(p0[i].prim is Text && p0[i].prim->Text_0@ == tm);
                    if prims@.len() > 0 {
                        assert(p0.skip(i + 1)[0] == p0[i + 1]);
                    }
                }
                // one-token lookahead: role and heading-id reclassification
                let mut next_is_code = false;
                let mut next_is_heading_end = false;
                if prims.len() > 0 {
                    let nref = &prims[0];
                    proof {
                        assert(*nref == p0[i + 1]);
                    }
                    match &nref.prim {
                        Prim::Code(_) => {
                            next_is_code = true;
                        },
                        Prim::End(PrimTag::Heading(_)) => {
                            next_is_heading_end = true;
                        },
                        _ => {},
                    }
                    proof {
                        assert(next_is_code == (p0[i + 1].prim is Code));
                        assert(next_is_heading_end == is_heading_end(p0[i + 1].prim));
                    }
                }
                let mut done = false;
                if next_is_code {
                    if let Some(rs) = find_role_suffix(t.as_slice()) {
                        let adj = t.len() - rs;
                        let ns = prims[0].start;
                        let ne = prims[0].end;
                        proof {
                            assert(prims@[0] == p0[i + 1]);
                            assert(ns == p0[i + 1].start && ne == p0[i + 1].end);
                        }
                        if ns <= ne && ne <= src.len() && adj <= pend - pstart && pstart + adj
                            <= ns {
                            let cloc = resolve_location(src, ns, ne);
                            proof {
                                lemma_column_at_bound(src@, ns as int);
                            }
                            if adj <= cloc.column {
                                // reclassify: trimmed text, then interpreted text
                                let np = prims.remove(0);
                                proof {
                                    assert(p0.skip(i + 1).remove(0) =~= p0.skip(i + 2));
                                }
                                match np.prim {
                                    Prim::Code(code) => {
                                        proof {
                                            lemma_role_scan_match(t@, 0);
                                            lemma_column_at_bound(src@, ns as int);
                                        }
                                        let text_trimmed = copy_range(&t, 0, rs);
                                        let tloc = Location {
                                            offset: loc.offset,
                                            len: loc.len - adj,
                                            line: loc.line,
                                            column: loc.column,
                                        };
                                        let c1 = mk(EventKind::Text { text: text_trimmed }, tloc);
                                        let role = copy_range(&t, rs + 1, t.len() - 1);
                                        let itloc = Location {
                                            offset: ns - adj,
                                            len: (ne - ns) + adj,
                                            line: cloc.line,
                                            column: cloc.column - adj,
                                        };
                                        let c2 = mk(
                                            EventKind::InterpretedText { text: code, role },
                                            itloc,
                                        );
                                        let ghost m1 = c1@;
                                        let ghost m2 = c2@;
                                        out.push(c1);
                                        out.push(c2);
                                        proof {
                                            let st = classify_step(
                                                src@,
                                                p0,
                                                i,
                                                stack0,
                                                table0,
                                            )->Some_0;
                                            assert(st.emitted =~= seq![m1, m2]);
                                            lemma_push2(out0, out@, c1, c2);
                                            lemma_step_preserves(
                                                src@,
                                                p0,
                                                i,
                                                stack0,
                                                table0,
                                                cstream_model(out0),
                                                st,
                                            );
                                            i = i + 2;
                                        }
                                        done = true;
                                    },
                                    _ => {
                                        proof {
                                            assert(false);
                                        }
                                        return Err(StreamError);
                                    },
                                }
                            }
                        }
                    }
                } else if next_is_heading_end {
                    if let Some((ps, a, b)) = find_heading_id(t.as_slice()) {
                        let adj = t.len() - ps;
                        let ns = prims[0].start;
                        let ne = prims[0].end;
                        proof {
                            assert(prims@[0] == p0[i + 1]);
                            assert(ns == p0[i + 1].start && ne == p0[i + 1].end);
                        }
                        if adj <= pend - pstart && ns <= ne && ne <= src.len() {
                            let np = prims.remove(0);
                            proof {
                                assert(p0.skip(i + 1).remove(0) =~= p0.skip(i + 2));
                            }
                            match stack.pop() {
                                Some(tag) => {
                                    proof {
                                        assert(stack@ =~= stack0.drop_last());
                                    }
                                    let text_trimmed = copy_range(&t, 0, ps);
                                    let tloc = Location {
                                        offset: loc.offset,
                                        len: loc.len - adj,
                                        line: loc.line,
                                        column: loc.column,
                                    };
                                    let c1 = mk(EventKind::Text { text: text_trimmed }, tloc);
                                    let id = copy_range(&t, a, b);
                                    let eloc = resolve_location(src, np.start, np.end);
                                    let c2 = ClassifiedEvent {
                                        event: AnnotatedEvent {
                                            event: EventKind::EndTag { tag },
                                            location: eloc,
                                        },
                                        trailer: Some(Trailer::Id(id)),
                                    };
                                    let ghost m1 = c1@;
                                    let ghost m2 = c2@;
                                    out.push(c1);
                                    out.push(c2);
                                    proof {
                                        let st = classify_step(src@, p0, i, stack0, table0)->Some_0;
                                        assert(st.emitted =~= seq![m1, m2]);
                                        lemma_push2(out0, out@, c1, c2);
                                        lemma_step_preserves(
                                            src@,
                                            p0,
                                            i,
                                            stack0,
                                            table0,
                                            cstream_model(out0),
                                            st,
                                        );
                                        i = i + 2;
                                    }
                                    done = true;
                                },
                                None => {
                                    proof {
                                        assert(classify_step(src@, p0, i, stack0, table0) is None);
                                        lemma_step_none(src@, p0, i, stack0, table0);
                                    }
                                    return Err(StreamError);
                                },
                            }
                        }
                    }
                }
                if !done {
                    // fail open: the text is passed through unchanged
                    let cev = mk(EventKind::Text { text: t }, loc);
                    let ghost cm = cev@;
                    out.push(cev);
                    proof {
                        assert(cm == cls(SEvent::Text { text: tm }, loc, Option::None));
                        assert(classify_step(src@, p0, i, stack0, table0) == step_text(
                            src@,
                            p0,
                            i,
                            stack0,
                            table0,
                            tm,
                            loc,
                        ));
                        assert(step_text(src@, p0, i, stack0, table0, tm, loc) == emit_leaf(
                            SEvent::Text { text: tm },
                            loc,
                            i,
                            stack0,
                            table0,
                        ));
                        let st = classify_step(src@, p0, i, stack0, table0)->Some_0;
                        assert(st.emitted =~= seq![cm]);
                        lemma_push1(out0, out@, cev);
                        lemma_step_preserves(src@, p0, i, stack0, table0, cstream_model(out0), st);
                        i = i + 1;
                    }
                }
            },
            Prim::Code(code) => {
                let cev = mk(EventKind::InlineCode { code }, loc);
                let ghost cm = cev@;
                out.push(cev);
                proof {
                    let st = classify_step(src@, p0, i, stack0, table0)->Some_0;
                    assert(st.emitted =~= seq![cm]);
                    lemma_push1(out0, out@, cev);
                    lemma_step_preserves(src@, p0, i, stack0, table0, cstream_model(out0), st);
                    i = i + 1;
                }
            },
            Prim::Html(html) => {
                let cev = mk(EventKind::RawHtml { html }, loc);
                let ghost cm = cev@;
                out.push(cev);
                proof {
                    let st = classify_step(src@, p0, i, stack0, table0)->Some_0;
                    assert(st.emitted =~= seq![cm]);
                    lemma_push1(out0, out@, cev);
                    lemma_step_preserves(src@, p0, i, stack0, table0, cstream_model(out0), st);
                    i = i + 1;
                }
            },
            Prim::FootnoteReference(target) => {
                let cev = mk(EventKind::FootnoteReference { target }, loc);
                let ghost cm = cev@;
                out.push(cev);
                proof {
                    let st = classify_step(src@, p0, i, stack0, table0)->Some_0;
                    assert(st.emitted =~= seq![cm]);
                    lemma_push1(out0, out@, cev);
                    lemma_step_preserves(src@, p0, i, stack0, table0, cstream_model(out0), st);
                    i = i + 1;
                }
            },
            Prim::SoftBreak => {
                let cev = mk(EventKind::SoftBreak, loc);
                let ghost cm = cev@;
                out.push(cev);
                proof {
                    let st = classify_step(src@, p0, i, stack0, table0)->Some_0;
                    assert(st.emitted =~= seq![cm]);
                    lemma_push1(out0, out@, cev);
                    lemma_step_preserves(src@, p0, i, stack0, table0, cstream_model(out0), st);
                    i = i + 1;
                }
            },
            Prim::HardBreak => {
                let cev = mk(EventKind::HardBreak, loc);
                let ghost cm = cev@;
                out.push(cev);
                proof {
                    let st = classify_step(src@, p0, i, stack0, table0)->Some_0;
                    assert(st.emitted =~= seq![cm]);
                    lemma_push1(out0, out@, cev);
                    lemma_step_preserves(src@, p0, i, stack0, table0, cstream_model(out0), st);
                    i = i + 1;
                }
            },
            Prim::Rule => {
                let cev = mk(EventKind::Rule, loc);
                let ghost cm = cev@;
                out.push(cev);
                proof {
                    let st = classify_step(src@, p0, i, stack0, table0)->Some_0;
                    assert(st.emitted =~= seq![cm]);
                    lemma_push1(out0, out@, cev);
                    lemma_step_preserves(src@, p0, i, stack0, table0, cstream_model(out0), st);
                    i = i + 1;
                }
            },
            Prim::TaskListMarker(checked) => {
                let cev = mk(EventKind::Checkbox { checked }, loc);
                let ghost cm = cev@;
                out.push(cev);
                proof {
                    let st = classify_step(src@, p0, i, stack0, table0)->Some_0;
                    assert(st.emitted =~= seq![cm]);
                    lemma_push1(out0, out@, cev);
                    lemma_step_preserves(src@, p0, i, stack0, table0, cstream_model(out0), st);
                    i = i + 1;
                }
            },
        }
    }
    proof {
        assert(i == p0.len());
    }
    if stack.len() == 0 {
        proof {
            assert(classify_at(src@, p0, i, stack@, table_model(table)) == Option::Some(
                Seq::<SClassified>::empty(),
            ));
            assert(cstream_model(out@) + Seq::<SClassified>::empty() =~= cstream_model(out@));
        }
        Ok(out)
    } else {
        proof {
            assert(classify_at(src@, p0, i, stack@, table_model(table)) is None);
        }
        Err(StreamError)
    }
}

} // verus!
