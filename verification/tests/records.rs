use lokb::content::FileContentStore;
use lokb::csv::parse_csv;
use lokb::facts::{entity_lookup, EntityInfo, RelationInfo};
use lokb::tools::{
    default_limit, entity_output, read_output, source_list_output, status_output, EntityInput,
    ReadInput, SearchInput,
};
use lokb::types::ContentType;
use lokb::wikidata::{dump_line, WikidataConfig};
use uuid::Uuid;

#[test]
fn test_parse_csv() {
    let content = "name,age,city\nAlice,30,Paris\nBob,25,London\n";
    let (doc, text) = parse_csv("test.csv", content, Uuid::nil()).unwrap();
    assert!(text.contains("Dataset: test.csv"));
    assert!(text.contains("Total rows: 2"));
    assert!(text.contains("Alice"));
    assert_eq!(doc.content_type, ContentType::Record);
}

#[test]
fn csv_description_is_exact() {
    let content = "a\tb\n x \t y \n\n";
    let (doc, text) = parse_csv("t.tsv", content, Uuid::nil()).unwrap();
    let expected = "# Dataset: t.tsv\n\n## Schema\n\nColumns (2):\n- Column 1: a\n- Column 2: b\n\n## Statistics\n\nTotal rows: 1\n\n## Sample Data\n\n| a | b | \n| --- | --- | \n| x | y | \n";
    assert_eq!(text, expected);
    assert_eq!(doc.external_id, "t");
    assert_eq!(doc.title, "Dataset: t.tsv");
    assert_eq!(doc.content_size, expected.len() as u64);
}

#[test]
fn csv_keeps_five_samples_but_counts_all_rows() {
    let mut content = String::from("h\n");
    for i in 0..8 {
        content.push_str(&format!("r{i}\n"));
    }
    let (_, text) = parse_csv("data.csv", &content, Uuid::nil()).unwrap();
    assert!(text.contains("Total rows: 8"));
    assert!(text.contains("| r4 | \n"));
    assert!(!text.contains("r5"));
}

#[test]
fn csv_header_only_has_no_table() {
    let (_, text) = parse_csv("x.csv", "only,header", Uuid::nil()).unwrap();
    assert!(text.ends_with("Total rows: 0\n"));
    assert!(!text.contains("Sample Data"));
}

#[test]
fn empty_csv_is_refused() {
    let err = parse_csv("e.csv", "", Uuid::nil()).unwrap_err();
    assert_eq!(err.message(), "storage error: empty CSV file");
}

#[test]
fn content_store_paths_and_sizes() {
    let store = FileContentStore::new("/kb/content");
    assert_eq!(store.source_dir("notes"), "/kb/content/notes");
    assert_eq!(store.file_path("notes", "a.md"), "/kb/content/notes/a.md");
    let paths = store.filename_paths("notes", "a");
    assert_eq!(paths, vec!["/kb/content/notes/a.md", "/kb/content/notes/a.txt", "/kb/content/notes/a"]);
    let listing = vec![
        ("/kb/content/notes/a.md".to_string(), 10u64),
        ("/kb/content/notes/sub/b.md".to_string(), 20),
        ("/kb/content/notes2/c.md".to_string(), 5),
        ("/kb/content/wiki/d.md".to_string(), 12),
    ];
    assert_eq!(store.source_size(&listing, "notes"), 30);
    assert_eq!(store.source_size(&listing, "wiki"), 12);
    assert_eq!(store.source_size(&listing, "none"), 0);
    assert_eq!(store.total_size(&listing), 47);
    assert_eq!(store.total_size(&[]), 0);
}

fn info(name: &str) -> EntityInfo {
    EntityInfo {
        id: format!("wiki:{name}"),
        canonical_name: name.to_string(),
        description: Some("a city".to_string()),
        entity_types: "[\"city\",\"capital\"]".to_string(),
        external_ids: "{}".to_string(),
        mention_count: 3,
    }
}

fn rel() -> RelationInfo {
    RelationInfo { predicate: "capital_of".to_string(), target_name: "France".to_string() }
}

#[test]
fn entity_lookup_builds_card() {
    let card = entity_lookup(Some(info("Paris")), Some(vec![rel()]), None).unwrap();
    assert_eq!(card.canonical_name, "Paris");
    assert_eq!(card.entity_types, vec!["city".to_string(), "capital".to_string()]);
    assert_eq!(card.relations.len(), 1);
    assert!(card.documents.is_empty());
    assert!(entity_lookup(None, None, None).is_none());

    let mut bad = info("X");
    bad.entity_types = "not json".to_string();
    assert!(entity_lookup(Some(bad), None, None).unwrap().entity_types.is_empty());
}

#[test]
fn tool_outputs() {
    assert_eq!(default_limit(), 20);
    assert_eq!(SearchInput::new("q".to_string()).limit, 20);

    let input = ReadInput { source: "wiki".to_string(), doc_id: "Paris".to_string() };
    let out = read_output(&input, Some("text".to_string())).unwrap();
    assert_eq!((out.source.as_str(), out.doc_id.as_str(), out.content.as_str()), ("wiki", "Paris", "text"));
    assert_eq!(
        read_output(&input, None).unwrap_err(),
        "document 'Paris' not found in source 'wiki'"
    );

    let req = EntityInput { name: "Paris".to_string(), relations: false, documents: true };
    let out = entity_output(&req, Some(info("Paris")), vec![rel()], vec!["d1".to_string()], vec![]);
    assert!(out.found);
    let card = out.entity.unwrap();
    assert!(card.relations.is_empty());
    assert_eq!(card.documents, vec!["d1".to_string()]);

    let out = entity_output(&req, None, vec![], vec![], vec![info("Parish"), info("Pari")]);
    assert!(!out.found);
    assert_eq!(out.suggestions, vec!["Parish".to_string(), "Pari".to_string()]);

    let s = status_output(3, 10, 4);
    assert_eq!((s.sources, s.entities, s.relations, s.total_bytes), (3, 10, 4, 0));
    assert!(source_list_output(vec![]).sources.is_empty());
}

#[test]
fn wikidata_lines_and_filters() {
    assert_eq!(dump_line("["), None);
    assert_eq!(dump_line("  ]  "), None);
    assert_eq!(dump_line("   "), None);
    assert_eq!(dump_line(",,"), None);
    assert_eq!(dump_line(" {\"id\":\"Q1\"},\n"), Some("{\"id\":\"Q1\"}".to_string()));

    let all = WikidataConfig::default();
    assert!(all.passes_type_filter(None));
    assert!(!all.limit_reached(1_000_000));

    let cities = WikidataConfig { limit: 2, type_filter: vec!["Q515".to_string()] };
    assert!(cities.passes_type_filter(Some("Q515")));
    assert!(!cities.passes_type_filter(Some("Q5")));
    assert!(!cities.passes_type_filter(None));
    assert!(!cities.limit_reached(1));
    assert!(cities.limit_reached(2));
}

use lokb::exif::{photo_document, PhotoMeta};
use lokb::sources::{add_source as register_source, exported_sources};
use lokb::telegram::{extract_text, MessageText, TextPart};
use lokb::wikilinks::file_entities;

#[test]
fn photo_description() {
    let meta = PhotoMeta {
        date: Some("2024-05-01 10:00:00".to_string()),
        make: Some("\"Canon\"".to_string()),
        model: Some("\"EOS R\"".to_string()),
        gps: Some(("48.856600".to_string(), "2.352200".to_string())),
        width: Some("6000".to_string()),
        height: None,
        exposure: None,
        f_number: Some("2.8".to_string()),
        iso: Some("100".to_string()),
    };
    let (doc, text) = photo_document("IMG_1", &meta, Uuid::nil());
    assert_eq!(
        text,
        "# Photo: IMG_1\n\nDate: 2024-05-01 10:00:00\nCamera: Canon EOS R\nGPS: 48.856600°N, 2.352200°E\nAperture: f/2.8\nISO: 100\n"
    );
    assert_eq!(doc.title, "Photo IMG_1");
    assert_eq!(doc.content_type, ContentType::MediaMeta);
}

#[test]
fn message_text_parts_are_joined() {
    let v = MessageText::Parts(vec![
        TextPart::Plain("see ".to_string()),
        TextPart::Entity(Some("this link".to_string())),
        TextPart::Entity(None),
        TextPart::Other,
        TextPart::Plain("!".to_string()),
    ]);
    assert_eq!(extract_text(&v), "see this link!");
    assert_eq!(extract_text(&MessageText::Plain("hi".to_string())), "hi");
    assert_eq!(extract_text(&MessageText::Other), "");
}

#[test]
fn stored_file_entities() {
    assert!(file_entities("a.md", "no links").is_none());
    let (id, es) = file_entities("Notes.md", "[[Paris]] and [[Eiffel Tower]] and [[Paris]]").unwrap();
    assert_eq!(id, "Notes");
    assert_eq!(es.len(), 2);
    assert!(es.contains(&("wiki:paris".to_string(), "Paris".to_string())));
    assert!(es.contains(&("wiki:eiffel_tower".to_string(), "Eiffel Tower".to_string())));
}

#[test]
fn export_leaves_personal_sources_out() {
    let wiki = register_source("wiki", "zim", "public", false).unwrap();
    let notes = register_source("notes", "markdown-dir", "personal", false).unwrap();
    let all = vec![wiki, notes];
    assert_eq!(exported_sources(&all, false), vec!["wiki".to_string()]);
    assert_eq!(exported_sources(&all, true), vec!["wiki".to_string(), "notes".to_string()]);
}
