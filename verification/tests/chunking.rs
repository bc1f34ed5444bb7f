use lokb::chunker::{make_chunk, SemanticChunker};
use lokb::sources::document_for_file;
use lokb::types::{ContentType, Document, PrivacyLevel};
use uuid::Uuid;

fn doc(kind: ContentType) -> Document {
    let mut d = document_for_file("", "doc.md", Uuid::now_v7(), "markdown-dir", "personal");
    d.content_type = kind;
    d
}

fn texts(chunks: &[lokb::types::Chunk]) -> Vec<(&str, u32, Option<&str>)> {
    chunks.iter().map(|c| (c.text.as_str(), c.chunk_index, c.section_path.as_deref())).collect()
}

#[test]
fn default_size() {
    assert_eq!(SemanticChunker::default().max_chunk_size, 1500);
}

#[test]
fn articles_split_at_second_and_third_level_headings() {
    let d = doc(ContentType::Article);
    let text = "Intro line\n## Alpha\nbody a\n### Beta\nbody b\n# Top\nlast\n";
    let chunks = SemanticChunker::default().chunk(&d, text).unwrap();
    assert_eq!(
        texts(&chunks),
        vec![
            ("Intro line", 0, None),
            ("## Alpha\nbody a", 1, Some("Alpha")),
            ("### Beta\nbody b\n# Top\nlast", 2, Some("Beta")),
        ]
    );
    for c in &chunks {
        assert_eq!(c.document_id, d.id);
        assert_eq!(c.source_id, d.source_id);
        assert_eq!(c.byte_start, 0);
        assert_eq!(c.byte_end, c.text.len() as u64);
        assert_eq!(c.privacy_level, PrivacyLevel::Private);
        assert_eq!(c.content_type, ContentType::Article);
        assert!(c.timestamp.is_none());
        assert!(c.entity_ids.is_empty());
    }
}

#[test]
fn long_sections_are_cut_and_numbered_in_order() {
    let d = doc(ContentType::Book);
    let chunker = SemanticChunker { max_chunk_size: 10 };
    let text = "## S\naaaa\nbbbb\ncccc\n";
    let chunks = chunker.chunk(&d, text).unwrap();
    assert_eq!(texts(&chunks), vec![("## S\naaaa\nbbbb", 0, Some("S")), ("cccc", 1, Some("S"))]);
    for (i, c) in chunks.iter().enumerate() {
        assert_eq!(c.chunk_index as usize, i);
    }
}

#[test]
fn blank_documents_keep_one_chunk() {
    let d = doc(ContentType::Note);
    let chunks = SemanticChunker::default().chunk(&d, "  \n\n").unwrap();
    assert_eq!(texts(&chunks), vec![("  \n\n", 0, None)]);
}

#[test]
fn conversations_and_records_are_one_chunk() {
    for kind in [
        ContentType::Conversation,
        ContentType::Thread,
        ContentType::MediaMeta,
        ContentType::GpsSegment,
        ContentType::Record,
        ContentType::Email,
    ] {
        let d = doc(kind);
        let chunks = SemanticChunker::default().chunk(&d, "## A\nx\n## B\ny").unwrap();
        assert_eq!(texts(&chunks), vec![("## A\nx\n## B\ny", 0, None)]);
        assert_eq!(chunks[0].content_type, kind);
    }
}

#[test]
fn single_chunks_copy_the_document() {
    let mut d = doc(ContentType::Paper);
    d.language = Some("en".to_string());
    let c = make_chunk(&d, "héllo", 7, Some("Sec".to_string()));
    assert_eq!(c.chunk_index, 7);
    assert_eq!(c.byte_end, 6);
    assert_eq!(c.section_path.as_deref(), Some("Sec"));
    assert_eq!(c.language.as_deref(), Some("en"));
}
