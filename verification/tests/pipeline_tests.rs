use struckdown::{
    classify, parse, read_raw, resolve_location, split_and_parse_front_matter,
    tag_supports_trailers, AnnotatedEvent, CellAlignment, EventKind, Prim, PrimEvent, PrimTag,
    TagKind,
};

fn events_of(s: &str) -> Vec<AnnotatedEvent> {
    parse(s).unwrap().events
}

#[test]
fn location_resolution() {
    let loc = resolve_location(b"ab\ncd", 3, 4);
    assert_eq!(loc.offset, 3);
    assert_eq!(loc.len, 1);
    assert_eq!(loc.line, 2);
    assert_eq!(loc.column, 0);
    let loc = resolve_location(b"ab\ncd", 0, 2);
    assert_eq!(loc.line, 1);
    assert_eq!(loc.column, 0);
}

#[test]
fn directive_with_argument() {
    let evs = events_of("```{note} hello\nworld\n```\n");
    let mut found = false;
    for e in &evs {
        if let EventKind::Directive { name, argument, front_matter, body } = &e.event {
            assert_eq!(name.as_slice(), b"note");
            assert_eq!(argument.as_deref(), Some(b"hello".as_slice()));
            assert!(front_matter.is_none());
            assert_eq!(body.as_slice(), b"world\n");
            found = true;
        }
    }
    assert!(found);
}

#[test]
fn directive_without_argument_keeps_no_argument() {
    let evs = events_of("```{warning}\nbe careful\n```\n");
    let mut found = false;
    for e in &evs {
        if let EventKind::Directive { name, argument, .. } = &e.event {
            assert_eq!(name.as_slice(), b"warning");
            assert!(argument.is_none());
            found = true;
        }
    }
    assert!(found);
}

#[test]
fn plain_fenced_block_stays_code() {
    let evs = events_of("```python\nprint(1)\n```\n");
    let mut found = false;
    for e in &evs {
        if let EventKind::CodeBlock { language, code } = &e.event {
            assert_eq!(language.as_deref(), Some(b"python".as_slice()));
            assert_eq!(code.as_slice(), b"print(1)\n");
            found = true;
        }
    }
    assert!(found);
}

#[test]
fn indented_block_flattens_lines() {
    let evs = events_of("    line1\n    line2\n");
    let mut found = false;
    for e in &evs {
        if let EventKind::CodeBlock { language, code } = &e.event {
            assert!(language.is_none());
            assert_eq!(code.as_slice(), b"line1\nline2\n");
            found = true;
        }
    }
    assert!(found);
}

#[test]
fn role_confirmed_by_code_span() {
    let evs = events_of("Example{py}`code`");
    let mut texts: Vec<Vec<u8>> = Vec::new();
    let mut interpreted = None;
    for e in &evs {
        match &e.event {
            EventKind::Text { text } => texts.push(text.clone()),
            EventKind::InterpretedText { text, role } => {
                interpreted = Some((text.clone(), role.clone()));
            }
            _ => {}
        }
    }
    assert_eq!(texts, vec![b"Example".to_vec()]);
    let (text, role) = interpreted.expect("interpreted text expected");
    assert_eq!(text, b"code".to_vec());
    assert_eq!(role, b"py".to_vec());
}

#[test]
fn role_span_covers_marker_and_code() {
    let evs = events_of("Example{py}`code`");
    for e in &evs {
        if let EventKind::InterpretedText { .. } = &e.event {
            // the marker "{py}" begins at offset 7 and the span runs to the
            // closing backtick
            assert_eq!(e.location.offset, 7);
            assert_eq!(e.location.len, 10);
        }
        if let EventKind::Text { .. } = &e.event {
            assert_eq!(e.location.offset, 0);
            assert_eq!(e.location.len, 7);
        }
    }
}

#[test]
fn role_without_code_span_fails_open() {
    let evs = events_of("Example{py}");
    let mut texts: Vec<Vec<u8>> = Vec::new();
    for e in &evs {
        match &e.event {
            EventKind::Text { text } => texts.push(text.clone()),
            EventKind::InterpretedText { .. } => panic!("no interpreted text expected"),
            _ => {}
        }
    }
    assert_eq!(texts, vec![b"Example{py}".to_vec()]);
}

#[test]
fn heading_id_attached_to_start_tag() {
    let evs = events_of("# Title {#custom-id}");
    assert!(matches!(
        &evs[0].event,
        EventKind::StartTag { tag: TagKind::Heading1, .. }
    ));
    if let EventKind::StartTag { attrs, .. } = &evs[0].event {
        assert_eq!(attrs.id.as_deref(), Some(b"custom-id".as_slice()));
    }
    assert!(matches!(&evs[1].event, EventKind::Text { text } if text.as_slice() == b"Title"));
    assert!(matches!(
        &evs[2].event,
        EventKind::EndTag { tag: TagKind::Heading1 }
    ));
}

#[test]
fn heading_without_trailer_has_no_id() {
    let evs = events_of("# Title");
    if let EventKind::StartTag { attrs, .. } = &evs[0].event {
        assert!(attrs.id.is_none());
    } else {
        panic!("heading start expected");
    }
}

#[test]
fn table_body_is_synthesized() {
    let evs = events_of("| a | b |\n|---|---|\n| 1 | 2 |\n| 3 | 4 |\n");
    let mut tags: Vec<String> = Vec::new();
    for e in &evs {
        match &e.event {
            EventKind::StartTag { tag, .. } => tags.push(format!("start {:?}", tag)),
            EventKind::EndTag { tag } => tags.push(format!("end {:?}", tag)),
            _ => {}
        }
    }
    let pos = |name: &str| tags.iter().position(|t| t == name).unwrap();
    assert!(pos("start Table") < pos("start TableHeader"));
    assert_eq!(pos("end TableHeader") + 1, pos("start TableBody"));
    assert_eq!(pos("end TableBody") + 1, pos("end Table"));
    assert!(pos("start TableBody") < pos("start TableRow"));
    assert!(pos("start TableRow") < pos("end TableBody"));
}

#[test]
fn table_cell_alignment_assigned() {
    let evs = events_of("| a | b |\n|:--|--:|\n| 1 | 2 |\n");
    let mut aligns: Vec<CellAlignment> = Vec::new();
    for e in &evs {
        if let EventKind::StartTag { tag: TagKind::TableHead, attrs } = &e.event {
            aligns.push(attrs.alignment.unwrap());
        }
    }
    assert_eq!(aligns, vec![CellAlignment::Left, CellAlignment::Right]);
}

#[test]
fn front_matter_valid_is_split() {
    let (fm, rest) = split_and_parse_front_matter(b"---\nkey: 1\n---\nbody".to_vec());
    let value = fm.expect("front matter expected");
    let expected: serde_yaml::Value = serde_yaml::from_str("key: 1").unwrap();
    assert_eq!(value, expected);
    assert_eq!(rest, b"body".to_vec());
}

#[test]
fn front_matter_invalid_is_kept() {
    let text = b"---\nkey: [unclosed\n---\nbody".to_vec();
    let (fm, rest) = split_and_parse_front_matter(text.clone());
    assert!(fm.is_none());
    assert_eq!(rest, text);
}

#[test]
fn front_matter_absent_is_kept() {
    let text = b"no fences here".to_vec();
    let (fm, rest) = split_and_parse_front_matter(text.clone());
    assert!(fm.is_none());
    assert_eq!(rest, text);
}

#[test]
fn directive_body_front_matter() {
    let evs = events_of("```{figure} pic\n---\nwidth: 3\n---\ncaption\n```\n");
    let mut found = false;
    for e in &evs {
        if let EventKind::Directive { name, front_matter, body, .. } = &e.event {
            assert_eq!(name.as_slice(), b"figure");
            let expected: serde_yaml::Value = serde_yaml::from_str("width: 3").unwrap();
            assert_eq!(front_matter.as_ref(), Some(&expected));
            assert_eq!(body.as_slice(), b"caption\n");
            found = true;
        }
    }
    assert!(found);
}

#[test]
fn stream_is_balanced_and_offsets_monotonic() {
    let doc = "# One {#x}\n\nPara with `code` and *emph*.\n\n| a |\n|---|\n| 1 |\n\n> quote\n";
    let evs = events_of(doc);
    let mut depth: i64 = 0;
    let mut last_offset = 0usize;
    for e in &evs {
        let synthetic = matches!(
            &e.event,
            EventKind::StartTag { tag: TagKind::TableBody, .. }
                | EventKind::EndTag { tag: TagKind::TableBody }
        );
        let is_end = matches!(&e.event, EventKind::EndTag { .. });
        match &e.event {
            EventKind::StartTag { .. } => depth += 1,
            EventKind::EndTag { .. } => depth -= 1,
            _ => {}
        }
        assert!(depth >= 0);
        // end events carry their whole subtree's range, so only start and
        // leaf events advance through the source
        if !synthetic && !is_end {
            assert!(e.location.offset >= last_offset);
            last_offset = e.location.offset;
        }
    }
    assert_eq!(depth, 0);
}

#[test]
fn image_is_downgraded_to_leaf() {
    let evs = events_of("![alt words](http://example.com/p \"a title\")\n");
    let mut found = false;
    for e in &evs {
        if let EventKind::Image { target, alt, title } = &e.event {
            assert_eq!(target.as_slice(), b"http://example.com/p");
            assert_eq!(alt.as_deref(), Some(b"alt words".as_slice()));
            assert_eq!(title.as_deref(), Some(b"a title".as_slice()));
            found = true;
        }
    }
    assert!(found);
}

#[test]
fn trailer_support_is_headings_only() {
    assert!(tag_supports_trailers(TagKind::Heading1));
    assert!(tag_supports_trailers(TagKind::Heading6));
    assert!(!tag_supports_trailers(TagKind::Paragraph));
    assert!(!tag_supports_trailers(TagKind::Table));
}

#[test]
fn pull_stream_yields_in_order() {
    let mut stream = parse("hello").unwrap();
    let n = stream.remaining();
    let mut pulled = 0;
    while let Some(_e) = stream.next() {
        pulled += 1;
    }
    assert_eq!(pulled, n);
    assert!(stream.next().is_none());
}

#[test]
fn inline_code_without_role() {
    let evs = events_of("see `x` here");
    let mut found = false;
    for e in &evs {
        if let EventKind::InlineCode { code } = &e.event {
            assert_eq!(code.as_slice(), b"x");
            found = true;
        }
    }
    assert!(found);
}

#[test]
fn malformed_stream_is_an_error() {
    // an end event with no open start breaks the tokenizer contract
    let mut prims = vec![PrimEvent { prim: Prim::End(PrimTag::Paragraph), start: 0, end: 0 }];
    assert!(classify(b"", &mut prims).is_err());
    // an unclosed start is one too
    let mut prims = vec![PrimEvent { prim: Prim::Start(PrimTag::Paragraph), start: 0, end: 0 }];
    assert!(classify(b"", &mut prims).is_err());
    // a byte range outside the source is one too
    let mut prims = vec![PrimEvent { prim: Prim::Text(b"x".to_vec()), start: 0, end: 5 }];
    assert!(classify(b"abc", &mut prims).is_err());
}

#[test]
fn raw_reader_flattens_fragments() {
    let mut prims = vec![
        PrimEvent { prim: Prim::Text(b"one".to_vec()), start: 0, end: 3 },
        PrimEvent { prim: Prim::SoftBreak, start: 3, end: 4 },
        PrimEvent { prim: Prim::Text(b"two".to_vec()), start: 4, end: 7 },
        PrimEvent { prim: Prim::HardBreak, start: 7, end: 8 },
        PrimEvent { prim: Prim::Text(b"three".to_vec()), start: 8, end: 13 },
        PrimEvent { prim: Prim::End(PrimTag::Paragraph), start: 0, end: 13 },
        PrimEvent { prim: Prim::Text(b"after".to_vec()), start: 13, end: 18 },
    ];
    let flat = read_raw(&mut prims);
    assert_eq!(flat, b"one\ntwo\nthree".to_vec());
    assert_eq!(prims.len(), 1);
}
