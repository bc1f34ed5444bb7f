use lokb::substring::{collect_hits, resolve_position_with_context, DocSpan, SubstringIndex};

#[test]
fn test_build_and_search_with_context() {
    let mut index = SubstringIndex::open();
    let docs = vec![
        ("wiki", "Paris", "Paris is the capital of France. The Eiffel Tower is in Paris."),
        ("wiki", "Rust", "Rust is a systems programming language. Rust ensures memory safety."),
    ];

    let metrics = index.build(&docs).unwrap();
    assert_eq!(metrics.documents, 2);
    assert!(metrics.index_bytes > 0);

    let hits = index.search("Eiffel Tower", 10);
    assert_eq!(hits.len(), 1);
    assert_eq!(hits[0].title, "Paris");
    assert!(hits[0].context.contains("Eiffel Tower"));

    assert_eq!(index.count("Paris"), 2);
    assert_eq!(index.count("nonexistent"), 0);
}

#[test]
fn test_lazy_load_from_disk() {
    let (text, map) = {
        let mut index = SubstringIndex::open();
        let docs = vec![("src", "doc1", "hello world foo bar")];
        index.build(&docs).unwrap();
        let (t, m) = index.saved_data().unwrap();
        (t.clone(), m.clone())
    };

    let mut index = SubstringIndex::open();
    index.load(text, map).unwrap();
    assert!(index.is_loaded());
    let hits = index.search("hello", 10);
    assert_eq!(hits.len(), 1);
    assert!(hits[0].context.contains("hello world"));
}

#[test]
fn test_empty_index() {
    let index = SubstringIndex::open();
    assert!(!index.is_loaded());
    assert_eq!(index.count("anything"), 0);
    assert!(index.search("anything", 10).is_empty());
}

#[test]
fn test_special_characters() {
    let mut index = SubstringIndex::open();
    let docs = vec![("math", "formulas", "The equation E=mc^2 changed physics. Also 3.14159 is pi.")];
    index.build(&docs).unwrap();

    assert_eq!(index.count("E=mc^2"), 1);
    assert_eq!(index.count("3.14159"), 1);
    assert_eq!(index.count("E=mc"), 1);
}

#[test]
fn build_lays_out_corpus_with_separators() {
    let mut index = SubstringIndex::open();
    let docs = vec![("s", "a", "ab"), ("s", "b", "c\0d")];
    let m = index.build(&docs).unwrap();
    assert_eq!(m.text_bytes, 7);
    let (text, map) = index.saved_data().unwrap();
    assert_eq!(text.as_slice(), b"ab\x01c d\x00");
    assert_eq!((map[0].start, map[0].end), (0, 2));
    assert_eq!((map[1].start, map[1].end), (3, 6));
    assert_eq!(map[1].title, "b");
}

#[test]
fn building_nothing_unloads() {
    let mut index = SubstringIndex::open();
    index.build(&[("s", "t", "text")]).unwrap();
    let m = index.build(&[]).unwrap();
    assert_eq!((m.documents, m.text_bytes, m.index_bytes, m.build_time_ms), (0, 0, 0, 0));
    assert!(!index.is_loaded());
}

#[test]
fn one_hit_per_document_and_limit() {
    let mut index = SubstringIndex::open();
    let docs = vec![("s", "a", "x x x"), ("s", "b", "x"), ("s", "c", "x")];
    index.build(&docs).unwrap();
    assert_eq!(index.count("x"), 5);
    let hits = index.search("x", 10);
    assert_eq!(hits.len(), 3);
    let hits = index.search("x", 2);
    assert_eq!(hits.len(), 2);
    assert!(index.search("x", 0).is_empty());
}

#[test]
fn load_refuses_bad_corpus() {
    let mut index = SubstringIndex::open();
    assert!(index.load(b"ab\x00cd\x00".to_vec(), vec![]).is_err());
    assert!(index.load(b"abc".to_vec(), vec![]).is_err());
    assert!(!index.is_loaded());
    assert!(index.load(b"abc\x00".to_vec(), vec![]).is_ok());
}

fn span(title: &str, start: usize, end: usize) -> DocSpan {
    DocSpan { source: "src".to_string(), title: title.to_string(), start, end }
}

#[test]
fn context_is_cut_and_marked() {
    let mut text = Vec::new();
    text.extend_from_slice(&[b'a'; 100]);
    text.extend_from_slice(b"MATCH\nline\r");
    text.extend_from_slice(&[b'b'; 100]);
    let map = vec![span("doc", 0, text.len())];
    let hit = resolve_position_with_context(&map, &text, 100, 5).unwrap();
    assert_eq!(hit.position, 100);
    let expected = format!("...{}MATCH line{}...", "a".repeat(60), "b".repeat(54));
    assert_eq!(hit.context, expected);
    assert!(resolve_position_with_context(&map, &text, text.len() + 5, 1).is_none());
}

#[test]
fn context_at_document_edges_has_no_ellipsis() {
    let text = b"short doc\x01next\x00".to_vec();
    let map = vec![span("first", 0, 9), span("second", 10, 14)];
    let hit = resolve_position_with_context(&map, &text, 6, 3).unwrap();
    assert_eq!(hit.title, "first");
    assert_eq!(hit.context, "short doc");
    let hit = resolve_position_with_context(&map, &text, 10, 4).unwrap();
    assert_eq!(hit.title, "second");
    assert_eq!(hit.position, 0);
    // The window starts 60 bytes before the match, whichever document
    // those bytes belong to.
    assert_eq!(hit.context, "short doc\u{1}next");
}

#[test]
fn collect_hits_skips_same_document_and_unplaced_positions() {
    let text = b"aa\x01bb\x00".to_vec();
    let map = vec![span("x", 0, 2), span("y", 3, 5)];
    let hits = collect_hits(&map, &text, &[1, 0, 2, 4], 1, 10);
    let titles: Vec<&str> = hits.iter().map(|h| h.title.as_str()).collect();
    assert_eq!(titles, vec!["x", "y"]);
    assert_eq!(hits[0].position, 1);
}

#[test]
fn counts_are_occurrences_of_the_pattern() {
    let mut index = SubstringIndex::open();
    let docs = vec![("s", "a", "abababa"), ("s", "b", "xaba")];
    index.build(&docs).unwrap();
    let (text, _) = index.saved_data().unwrap();
    let text = text.clone();
    for pattern in ["aba", "ab", "a", "x", "xab", "bax", "zz"] {
        let p = pattern.as_bytes();
        let expected = (0..text.len()).filter(|&i| text[i..].starts_with(p)).count();
        assert_eq!(index.count(pattern), expected, "pattern {pattern}");
    }
    assert_eq!(index.count("aba"), 4);
    let empty = Vec::new();
    let mut loaded = SubstringIndex::open();
    assert!(loaded.load(empty, Vec::new()).is_ok());
}
