use lokb::error::Error;
use lokb::sources::{
    add_source, candidate_filenames, delete_source, document_for_file, extract_doc_title, hash_text, list_sources,
    parse_class, parse_doc_ref, read_document, sanitize_filename, source_status, storage_status, update_source,
    FileChange, RawFileInfo,
};
use lokb::types::{ContentHash, ContentType, DataSourceClass, PrivacyLevel};
use uuid::Uuid;

#[test]
fn content_hash_is_blake3() {
    let h = hash_text("abc");
    assert_eq!(h.0, *blake3::hash(b"abc").as_bytes());
    assert_eq!(h.hex(), blake3::hash(b"abc").to_hex().to_string());
    assert_eq!(h.hex(), "6437b3ac38465133ffb63b75273a8db548c558465d79db03fd359c6cd5bd9d85");
    assert_eq!(ContentHash::from_bytes(b"abc").0, h.0);
    assert_ne!(hash_text("abd").0, h.0);
}

#[test]
fn titles_come_from_the_first_heading_or_the_file_name() {
    assert_eq!(extract_doc_title("intro\n  # Title here\n# Later", "x.md"), "Title here");
    assert_eq!(extract_doc_title("no heading\n## Section", "notes.md"), "notes");
    assert_eq!(extract_doc_title("", "plain.txt"), "plain");
    assert_eq!(extract_doc_title("", "a.txt.md"), "a");
    assert_eq!(extract_doc_title("", "a.md.txt"), "a.md");
    assert_eq!(extract_doc_title("", "data.csv"), "data.csv");
}

#[test]
fn file_names_lose_separators() {
    assert_eq!(sanitize_filename("A/B\\C:D"), "A_B_C_D");
    assert_eq!(sanitize_filename("plain"), "plain");
}

#[test]
fn classes_and_registration() {
    assert!(matches!(parse_class("public"), Ok(DataSourceClass::Public { license: None, web_url_template: None })));
    assert!(matches!(
        parse_class("personal"),
        Ok(DataSourceClass::Personal { owner: None, platform: None, contains_pii: true })
    ));
    let err = parse_class("secret").unwrap_err();
    assert_eq!(err.message(), "unknown class: secret. Use 'public' or 'personal'");

    let notes = add_source("notes", "markdown-dir", "personal", false).unwrap();
    assert_eq!(notes.name, "notes");
    assert_eq!(notes.format, "markdown-dir");
    assert_eq!(notes.priority, 250);
    assert_eq!(notes.document_count, 0);
    assert!(notes.class.is_personal());
    let wiki = add_source("wiki", "zim", "public", false).unwrap();
    assert_eq!(wiki.priority, 100);
    assert!(wiki.class.is_public());
    assert_ne!(notes.id, wiki.id);

    let dup = add_source("notes", "markdown-dir", "bogus", true).unwrap_err();
    assert!(matches!(&dup, Error::SourceAlreadyExists(n) if n == "notes"));
    assert_eq!(dup.message(), "source 'notes' already exists");
    let bad = add_source("x", "markdown-dir", "bogus", false).unwrap_err();
    assert_eq!(bad.message(), "unknown class: bogus. Use 'public' or 'personal'");
}

#[test]
fn documents_of_new_files() {
    let id = Uuid::now_v7();
    let d = document_for_file("# Hello\nbody", "hello.md", id, "markdown-dir", "personal");
    assert_eq!(d.title, "Hello");
    assert_eq!(d.external_id, "hello.md");
    assert_eq!(d.source_id, id);
    assert_eq!(d.content_type, ContentType::Article);
    assert_eq!(d.privacy_level, PrivacyLevel::Private);
    assert_eq!(d.content_size, 12);
    assert_eq!(d.content_hash.0, hash_text("# Hello\nbody").0);
    assert!(d.language.is_none());
    let chat = document_for_file("[chat]\n", "segment_0000.txt", id, "telegram-export", "public");
    assert_eq!(chat.content_type, ContentType::Conversation);
    assert_eq!(chat.privacy_level, PrivacyLevel::Public);
    assert_eq!(chat.title, "segment_0000");
}

fn raw(id: &str, content: &str) -> RawFileInfo {
    RawFileInfo { external_id: id.to_string(), filename: format!("{id}.md"), content: content.to_string() }
}

#[test]
fn update_plan_classifies_files_and_finds_deletions() {
    let files = vec![raw("new", "fresh"), raw("same", "kept"), raw("edited", "v2")];
    let stored = vec![None, Some(hash_text("kept").0.to_vec()), Some(hash_text("v1").0.to_vec())];
    let existing: Vec<String> = ["same", "edited", "gone", "gone"].iter().map(|s| s.to_string()).collect();
    let plan = update_source(&files, &stored, &existing);
    assert_eq!(plan.changes, vec![FileChange::New, FileChange::Unchanged, FileChange::Changed]);
    assert_eq!(plan.deleted, vec!["gone".to_string()]);
    assert_eq!(plan.report.new_count, 1);
    assert_eq!(plan.report.changed_count, 1);
    assert_eq!(plan.report.unchanged_count, 1);
    assert_eq!(plan.report.deleted_count, 1);
}

#[test]
fn rerunning_an_update_changes_nothing() {
    let files = vec![raw("a", "one"), raw("b", "two")];
    let stored: Vec<Option<Vec<u8>>> = files.iter().map(|f| Some(hash_text(&f.content).0.to_vec())).collect();
    let existing = vec!["a".to_string(), "b".to_string()];
    let plan = update_source(&files, &stored, &existing);
    assert_eq!(plan.changes, vec![FileChange::Unchanged, FileChange::Unchanged]);
    assert!(plan.deleted.is_empty());
    assert_eq!(plan.report.unchanged_count, 2);
}

#[test]
fn status_listing_and_deletion() {
    let wiki = add_source("wiki", "zim", "public", false).unwrap();
    let notes = add_source("notes", "markdown-dir", "personal", false).unwrap();

    let st = source_status(Some(&wiki), "wiki", 42).unwrap();
    assert_eq!((st.name.as_str(), st.format.as_str(), st.class.as_str()), ("wiki", "zim", "public"));
    assert_eq!((st.document_count, st.content_bytes), (0, 42));
    assert_eq!(st.created_at, wiki.created_at);
    let missing = source_status(None, "ghost", 0).unwrap_err();
    assert_eq!(missing.message(), "source 'ghost' not found");

    assert_eq!(delete_source(Some(&notes), "notes").unwrap(), notes.id);
    assert_eq!(delete_source(None, "ghost").unwrap_err().message(), "source 'ghost' not found");

    let listed = list_sources(&[wiki.clone(), notes.clone()]);
    assert_eq!(listed.len(), 2);
    assert_eq!(listed[1].name, "notes");
    assert_eq!(listed[1].class, "personal");
    assert_eq!(listed[0].class, "public");

    let status = storage_status(10, 20, 30, &[wiki, notes], &[5, 7], 3, 4);
    let layers: Vec<(&str, u64)> = status.layers.iter().map(|l| (l.name.as_str(), l.size_bytes)).collect();
    assert_eq!(layers, vec![("source", 10), ("derived", 20), ("cache", 30)]);
    assert_eq!(status.total_bytes, 60);
    assert_eq!(status.sources[1].name, "notes");
    assert_eq!(status.sources[1].content_bytes, 7);
    assert_eq!(status.sources[0].class, "public");
    assert_eq!((status.entity_count, status.relation_count), (3, 4));
}

#[test]
fn document_references() {
    assert_eq!(parse_doc_ref("wiki:Paris:France").unwrap(), ("wiki".to_string(), "Paris:France".to_string()));
    assert_eq!(parse_doc_ref("notes:").unwrap(), ("notes".to_string(), String::new()));
    assert_eq!(parse_doc_ref("nocolon").unwrap_err().message(), "expected format: source_name:document_id");
    assert_eq!(candidate_filenames("doc"), vec!["doc.md", "doc.txt", "doc"]);
    assert_eq!(read_document("s", "d", Some("text".to_string())).unwrap(), "text");
    assert_eq!(read_document("s", "d", None).unwrap_err().message(), "document 'd' not found in source 's'");
}
