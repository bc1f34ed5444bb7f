use lokb::browser::extract_wikipedia_article;
use lokb::html::{html_to_markdown, strip_html_tags};
use lokb::wikilinks::extract_wikilinks;
use lokb::zim::{decompress_zstd, parse_path_title, read_u16, read_u32, read_u64, ZimHeader};

#[test]
fn test_extract_wikipedia_article() {
    assert_eq!(
        extract_wikipedia_article("https://en.wikipedia.org/wiki/Paris"),
        Some("Paris".to_string())
    );
    assert_eq!(
        extract_wikipedia_article("https://en.wikipedia.org/wiki/Eiffel_Tower"),
        Some("Eiffel Tower".to_string())
    );
    assert_eq!(
        extract_wikipedia_article("https://en.wikipedia.org/wiki/Special:Search"),
        None
    );
    assert_eq!(extract_wikipedia_article("https://google.com"), None);
}

#[test]
fn test_html_to_markdown() {
    let html = "<h1>Title</h1><p>Hello <strong>world</strong></p>";
    let md = html_to_markdown(html, htmd::convert(html).ok());
    assert!(md.contains("Title"));
    assert!(md.contains("**world**"));
}

#[test]
fn test_strip_tags_fallback() {
    let html = "<p>Hello <b>world</b></p>";
    let result = strip_html_tags(html);
    assert_eq!(result, "Hello world");
}

#[test]
fn test_simple_wikilinks() {
    let text = "This is about [[Paris]] and [[France]].";
    let entities = extract_wikilinks(text);
    assert_eq!(entities.get("Paris"), Some(&1));
    assert_eq!(entities.get("France"), Some(&1));
}

#[test]
fn test_display_text() {
    let text = "Built by [[Gustave Eiffel|Eiffel]].";
    let entities = extract_wikilinks(text);
    assert_eq!(entities.get("Gustave Eiffel"), Some(&1));
    assert!(entities.get("Eiffel").is_none());
}

#[test]
fn test_section_links() {
    let text = "See [[Paris#Geography]] for more.";
    let entities = extract_wikilinks(text);
    assert_eq!(entities.get("Paris"), Some(&1));
}

#[test]
fn test_multiple_mentions() {
    let text = "[[Paris]] is great. I love [[Paris]].";
    let entities = extract_wikilinks(text);
    assert_eq!(entities.get("Paris"), Some(&2));
}

#[test]
fn test_skip_file_links() {
    let text = "[[File:photo.jpg]] and [[Category:Cities]]";
    let entities = extract_wikilinks(text);
    assert!(entities.is_empty());
}

#[test]
fn test_no_wikilinks() {
    let text = "No links here. Just [regular](markdown) links.";
    let entities = extract_wikilinks(text);
    assert!(entities.is_empty());
}

#[test]
fn test_header_magic_validation() {
    let bad_data = vec![0u8; 80];
    let result = ZimHeader::parse(&bad_data);
    assert!(result.is_err());
    assert!(result.unwrap_err().message().contains("invalid ZIM magic"));
}

#[test]
fn test_header_too_small() {
    let data = vec![0u8; 10];
    let result = ZimHeader::parse(&data);
    assert!(result.is_err());
    assert!(result.unwrap_err().message().contains("too small"));
}

#[test]
fn test_read_helpers() {
    let data = [0x01, 0x02, 0x03, 0x04, 0x05, 0x06, 0x07, 0x08];
    assert_eq!(read_u16(&data, 0), 0x0201);
    assert_eq!(read_u32(&data, 0), 0x04030201);
    assert_eq!(read_u64(&data, 0), 0x0807060504030201);
}

#[test]
fn test_decompress_zstd() {
    let original = b"Hello, ZIM World! This is a test of zstd compression.";
    let compressed = zstd::encode_all(&original[..], 3).unwrap();
    let decompressed = decompress_zstd(&compressed).unwrap();
    assert_eq!(decompressed, original);
}

#[test]
fn test_path_title_parsing() {
    let data = b"article/path\0Article Title\0rest of data";
    let (path, title) = parse_path_title(data.as_slice(), 100).unwrap();
    assert_eq!(path, "article/path");
    assert_eq!(title, "Article Title");
}

#[test]
fn test_path_without_title() {
    let data = b"just-path\0\0";
    let (path, title) = parse_path_title(data.as_slice(), 100).unwrap();
    assert_eq!(path, "just-path");
    assert_eq!(title, "");
}


use lokb::browser::{extract_url_entities, history_documents, visit_time, HistoryEntry};
use lokb::types::{ContentHash, ContentType, Document, PrivacyLevel};
use uuid::Uuid;

fn record(text: &str) -> (Document, String) {
    (
        Document {
            id: Uuid::nil(),
            source_id: Uuid::nil(),
            external_id: "test".into(),
            parent_id: None,
            depth: 0,
            title: "test".into(),
            content_type: ContentType::Record,
            language: None,
            content_hash: ContentHash::from_bytes(b""),
            content_size: 0,
            created_at: "2024-01-01T00:00:00+00:00".into(),
            indexed_at: "2024-01-01T00:00:00+00:00".into(),
            privacy_level: PrivacyLevel::default(),
        },
        text.to_string(),
    )
}

#[test]
fn test_extract_url_entities() {
    let docs = vec![record(
        "URL: https://en.wikipedia.org/wiki/Rust_(programming_language)\nTitle: Rust\n",
    )];
    let entities = extract_url_entities(&docs);
    assert_eq!(entities.len(), 1);
    assert_eq!(entities[0].1, "Rust (programming language)");
}

#[test]
fn url_entities_have_wiki_ids_in_order() {
    let docs = vec![
        record("URL: https://en.wikipedia.org/wiki/Eiffel_Tower\nTitle: x\n"),
        record("URL: https://example.com/\nURL: https://en.wikipedia.org/wiki/Special:Random\n"),
        record("Title: URL: https://en.wikipedia.org/wiki/Nope\nURL: https://de.wikipedia.org/wiki/Berlin#Geschichte"),
    ];
    let entities = extract_url_entities(&docs);
    assert_eq!(
        entities,
        vec![
            ("wiki:eiffel_tower".to_string(), "Eiffel Tower".to_string()),
            ("wiki:berlin".to_string(), "Berlin".to_string()),
        ]
    );
}

#[test]
fn history_becomes_private_records() {
    let entries = vec![
        HistoryEntry { url: "https://a.example/".into(), title: "".into(), visit_count: 3, last_visit: "unknown".into() },
        HistoryEntry { url: "https://b.example/".into(), title: "B".into(), visit_count: -1, last_visit: "t".into() },
    ];
    let docs = history_documents(&entries, Uuid::nil());
    assert_eq!(docs.len(), 2);
    assert_eq!(docs[0].0.external_id, "url_000000");
    assert_eq!(docs[0].0.title, "https://a.example/");
    assert_eq!(docs[0].1, "URL: https://a.example/\nTitle: https://a.example/\nVisits: 3\nLast visit: unknown\n");
    assert_eq!(docs[1].0.external_id, "url_000001");
    assert_eq!(docs[1].1, "URL: https://b.example/\nTitle: B\nVisits: -1\nLast visit: t\n");
    assert_eq!(docs[1].0.privacy_level, PrivacyLevel::Private);
    assert_eq!(docs[1].0.content_size, docs[1].1.len() as u64);
}

#[test]
fn visit_times_by_browser() {
    assert_eq!(visit_time(0, false), "1970-01-01T00:00:00+00:00");
    assert_eq!(visit_time(1_500_000, false), "1970-01-01T00:00:01+00:00");
    assert_eq!(visit_time(11_644_473_600_000_000, true), "1970-01-01T00:00:00+00:00");
    assert_eq!(visit_time(i64::MAX, false), "unknown");
}

#[test]
fn stripping_tags_twice_changes_nothing() {
    for html in ["<p>Hello <b>world</b></p>", "a < b > c", "<<x>>y>", "plain text", "<unclosed"] {
        let once = strip_html_tags(html);
        assert!(!once.contains('<') && !once.contains('>'));
        assert_eq!(strip_html_tags(&once), once);
    }
    assert_eq!(strip_html_tags("plain text"), "plain text");
    assert_eq!(strip_html_tags("a < b > c"), "a  c");
}
