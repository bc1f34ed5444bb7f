//! Markdown documents: titles, and the pass-through ingestion step.
use vstd::prelude::*;
use uuid::Uuid;
use crate::sources::{first_heading, first_heading_exec, hash_text, text_hash, trim_suffix_all, trim_suffix_all_exec};
use crate::text::{lines, str_chars, string_from_range};
use crate::types::{new_id, now_rfc3339, ContentType, Document, PrivacyLevel};

verus! {

/// The title of a Markdown text: its first `# ` heading.
pub fn extract_title(content: &str) -> (r: Option<String>)
    ensures
        match first_heading(lines(content@)) {
            Some(h) => r matches Some(s) && s@ == h,
            None => r is None,
        },
{
    first_heading_exec(content)
}

/// The optimize step that takes `.md` files as they are.
#[derive(Debug, Clone, Copy)]
pub struct MarkdownPassthrough;

impl MarkdownPassthrough {
    /// The step's name.
    pub fn name(&self) -> (r: &'static str)
        ensures
            r@ == "markdown_passthrough"@,
    {
        "markdown_passthrough"
    }

    /// Expected output size (the input's) and compute time in milliseconds
    /// (one per MB, plus one).
    pub fn estimate_sizes(&self, input_size: u64) -> (r: (u64, u64))
        ensures
            r.0 == input_size,
            r.1 == input_size / 1_000_000 + 1,
    {
        (input_size, input_size / 1_000_000 + 1)
    }

    /// The document for a Markdown file: its id is the file name without
    /// trailing `.md`, its title the first heading or else that id.
    pub fn document_for(&self, filename: &str, content: &str, source_id: Uuid) -> (d: Document)
        ensures
            d.source_id == source_id,
            d.external_id@ == trim_suffix_all(filename@, ".md"@),
            d.title@ == match first_heading(lines(content@)) {
                Some(h) => h,
                None => trim_suffix_all(filename@, ".md"@),
            },
            d.content_type == ContentType::Article,
            d.language matches Some(l) && l@ == "en"@,
            d.content_hash.0@ == text_hash(content@),
            d.content_size == vstd::utf8::encode_utf8(content@).len(),
            d.privacy_level == PrivacyLevel::Public,
            d.parent_id is None,
            d.depth == 0,
    {
        let f = str_chars(filename);
        let md = str_chars(".md");
        let n = trim_suffix_all_exec(f.as_slice(), md.as_slice());
        let external_id = string_from_range(f.as_slice(), 0, n);
        let title = match extract_title(content) {
            Some(t) => t,
            None => external_id.clone(),
        };
        let created = now_rfc3339();
        let indexed = now_rfc3339();
        Document {
            id: new_id(),
            source_id,
            external_id,
            parent_id: None,
            depth: 0,
            title,
            content_type: ContentType::Article,
            language: Some(String::from_str("en")),
            content_hash: hash_text(content),
            content_size: content.as_bytes().len() as u64,
            created_at: created,
            indexed_at: indexed,
            privacy_level: PrivacyLevel::Public,
        }
    }
}

} // verus!
