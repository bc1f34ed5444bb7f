//! Ingesting a directory of text files: which files a format takes, the id
//! and stored name of each, and the catalog record of an ingested file.
use vstd::prelude::*;
use crate::error::Error;
use crate::chunker::opt_text;
use crate::html::{html_to_markdown, markdown_of};
use crate::sources::{
    doc_title, extract_doc_title, hash_text, text_hash, texts, trim_suffix_all,
    trim_suffix_all_exec, RawFileInfo,
};
use crate::text::{str_chars, string_from_range};
use crate::types::{new_id, now_rfc3339, ContentType, DataSource, Document, PrivacyLevel};

verus! {

// ── Formats ──────────────────────────────────────────────────────────

/// The file extensions of a directory format, and whether its files are
/// HTML to convert to Markdown.
pub open spec fn dir_format(format: Seq<char>) -> Option<(Seq<Seq<char>>, bool)> {
    if format == "markdown-dir"@ {
        Some((seq!["md"@], false))
    } else if format == "plaintext-dir"@ {
        Some((seq!["txt"@], false))
    } else if format == "html-dir"@ {
        Some((seq!["html"@, "htm"@], true))
    } else {
        None
    }
}

/// The text of the error for a format that has no directory of files.
pub open spec fn unsupported_update_text(format: Seq<char>) -> Seq<char> {
    "incremental update not supported for format: "@ + format
}

/// The extensions of a directory format and whether its files are
/// converted from HTML; other formats are refused.
pub fn dir_extensions(format: &str) -> (r: Result<(Vec<String>, bool), Error>)
    ensures
        match dir_format(format@) {
            Some((exts, html)) => r matches Ok((v, h)) && texts(v@) == exts && h == html,
            None => r matches Err(Error::InvalidInput(m)) && m@ == unsupported_update_text(format@),
        },
{
    proof {
        reveal_strlit("markdown-dir");
        reveal_strlit("plaintext-dir");
        reveal_strlit("html-dir");
        reveal_strlit("md");
        reveal_strlit("txt");
        reveal_strlit("html");
        reveal_strlit("htm");
    }
    let f = String::from_str(format);
    let mut v: Vec<String> = Vec::new();
    if f == String::from_str("markdown-dir") {
        v.push(String::from_str("md"));
        assert(texts(v@) =~= seq!["md"@]);
        Ok((v, false))
    } else if f == String::from_str("plaintext-dir") {
        v.push(String::from_str("txt"));
        assert(texts(v@) =~= seq!["txt"@]);
        Ok((v, false))
    } else if f == String::from_str("html-dir") {
        v.push(String::from_str("html"));
        v.push(String::from_str("htm"));
        assert(texts(v@) =~= seq!["html"@, "htm"@]);
        Ok((v, true))
    } else {
        let mut m = String::from_str("incremental update not supported for format: ");
        m.append(format);
        Err(Error::InvalidInput(m))
    }
}

// ── Files ────────────────────────────────────────────────────────────

/// The position of the last `.` in `s`, if any.
pub open spec fn last_dot(s: Seq<char>) -> Option<int>
    decreases s.len(),
{
    if s.len() == 0 {
        None
    } else if s.last() == '.' {
        Some(s.len() - 1)
    } else {
        last_dot(s.drop_last())
    }
}

/// The extension of a file name, as `Path::extension` reads it: the text
/// after the last `.`, unless that `.` starts the name (or the name is `..`).
pub open spec fn extension_of(name: Seq<char>) -> Option<Seq<char>> {
    if name == ".."@ {
        None
    } else {
        match last_dot(name) {
            Some(k) => if k == 0 {
                None
            } else {
                Some(name.subrange(k + 1, name.len() as int))
            },
            None => None,
        }
    }
}

proof fn lemma_last_dot(s: Seq<char>)
    ensures
        match last_dot(s) {
            Some(k) => 0 <= k < s.len() && s[k] == '.' && forall|j: int| k < j < s.len() ==> s[j]
                != '.',
            None => forall|j: int| 0 <= j < s.len() ==> s[j] != '.',
        },
    decreases s.len(),
{
    if s.len() > 0 && s.last() != '.' {
        lemma_last_dot(s.drop_last());
        match last_dot(s.drop_last()) {
            Some(k) => {
                assert forall|j: int| k < j < s.len() implies s[j] != '.' by {
                    if j < s.len() - 1 {
                        assert(s[j] == s.drop_last()[j]);
                    }
                }
            },
            None => {
                assert forall|j: int| 0 <= j < s.len() implies s[j] != '.' by {
                    if j < s.len() - 1 {
                        assert(s[j] == s.drop_last()[j]);
                    }
                }
            },
        }
    }
}

/// The extension of a file name.
pub fn file_extension(name: &str) -> (r: Option<String>)
    ensures
        match extension_of(name@) {
            Some(e) => r matches Some(x) && x@ == e,
            None => r is None,
        },
{
    let v = str_chars(name);
    proof {
        reveal_strlit("..");
    }
    if String::from_str(name) == String::from_str("..") {
        return None;
    }
    let mut k = v.len();
    assert(v@.subrange(0, v@.len() as int) =~= v@);
    while k > 0 && v[k - 1] != '.'
        invariant
            k <= v@.len(),
            last_dot(v@) == last_dot(v@.subrange(0, k as int)),
        decreases k,
    {
        assert(v@.subrange(0, k as int).drop_last() =~= v@.subrange(0, k - 1));
        k -= 1;
    }
    assert(v@.subrange(0, v@.len() as int) =~= v@);
    if k <= 1 {
        proof {
            if k == 1 {
                assert(last_dot(v@.subrange(0, 1)) == Some(0int));
            } else {
                assert(last_dot(v@.subrange(0, 0)) is None);
            }
        }
        return None;
    }
    assert(last_dot(v@.subrange(0, k as int)) == Some(k - 1));
    Some(string_from_range(v.as_slice(), k, v.len()))
}

/// `ext` is one of `exts`.
pub open spec fn listed(exts: Seq<Seq<char>>, ext: Seq<char>) -> bool {
    exists|i: int| 0 <= i < exts.len() && exts[i] == ext
}

/// The id of a file: its name with `.<ext>` trimmed for each extension in
/// turn.
pub open spec fn file_id(name: Seq<char>, exts: Seq<Seq<char>>) -> Seq<char>
    decreases exts.len(),
{
    if exts.len() == 0 {
        name
    } else {
        trim_suffix_all(file_id(name, exts.drop_last()), "."@ + exts.last())
    }
}

/// The raw file a directory entry gives: `None` unless its extension is
/// listed. HTML is converted to Markdown (`converted` is what converting it
/// gave) and then stored as `<id>.md`; other files keep their name.
pub open spec fn raw_file_spec(
    name: Seq<char>,
    content: Seq<char>,
    exts: Seq<Seq<char>>,
    html: bool,
    converted: Option<Seq<char>>,
) -> Option<
    (Seq<char>, Seq<char>, Seq<char>),
> {
    match extension_of(name) {
        Some(e) => if listed(exts, e) {
            let id = file_id(name, exts);
            Some(
                (
                    id,
                    if html { id + ".md"@ } else { name },
                    if html { markdown_of(content, converted) } else { content },
                ),
            )
        } else {
            None
        },
        None => None,
    }
}

/// The raw file of a directory entry named `filename` with text `content`,
/// for a format with extensions `extensions`; `converted` is what converting
/// the text from HTML gave, for an HTML format.
pub fn raw_file_info(
    filename: &str,
    content: String,
    extensions: &Vec<String>,
    html: bool,
    converted: Option<String>,
) -> (r: Option<RawFileInfo>)
    ensures
        match raw_file_spec(filename@, content@, texts(extensions@), html, opt_text(converted)) {
            Some((id, name, text)) => r matches Some(f) && f.external_id@ == id && f.filename@
                == name && f.content@ == text,
            None => r is None,
        },
{
    let ghost exts = texts(extensions@);
    let ext = match file_extension(filename) {
        Some(e) => e,
        None => {
            return None;
        },
    };
    let mut found = false;
    let mut i: usize = 0;
    while i < extensions.len()
        invariant
            i <= extensions@.len(),
            exts == texts(extensions@),
            found == exists|j: int| 0 <= j < i && exts[j] == ext@,
        decreases extensions.len() - i,
    {
        assert(exts[i as int] == extensions@[i as int]@);
        if extensions[i] == ext {
            found = true;
        }
        i += 1;
    }
    if !found {
        return None;
    }
    let name = str_chars(filename);
    let mut id: Vec<char> = name.clone();
    assert(id@ =~= name@);
    let mut k: usize = 0;
    while k < extensions.len()
        invariant
            k <= extensions@.len(),
            exts == texts(extensions@),
            id@ == file_id(filename@, exts.take(k as int)),
        decreases extensions.len() - k,
    {
        let mut pat = String::from_str(".");
        pat.append(extensions[k].as_str());
        let pv = str_chars(pat.as_str());
        let n = trim_suffix_all_exec(id.as_slice(), pv.as_slice());
        let mut next: Vec<char> = Vec::new();
        let mut q: usize = 0;
        while q < n
            invariant
                q <= n <= id@.len(),
                next@ == id@.subrange(0, q as int),
            decreases n - q,
        {
            next.push(id[q]);
            assert(id@.subrange(0, q + 1) =~= id@.subrange(0, q as int).push(id@[q as int]));
            q += 1;
        }
        proof {
            reveal_strlit(".");
            assert(exts.take(k + 1).drop_last() =~= exts.take(k as int));
            assert(exts.take(k + 1).last() == extensions@[k as int]@);
        }
        id = next;
        k += 1;
    }
    assert(exts.take(extensions@.len() as int) =~= exts);
    let external_id = string_from_range(id.as_slice(), 0, id.len());
    assert(id@.subrange(0, id@.len() as int) =~= id@);
    if html {
        let mut stored = external_id.clone();
        stored.append(".md");
        proof {
            reveal_strlit(".md");
        }
        let text = html_to_markdown(content.as_str(), converted);
        Some(RawFileInfo { external_id, filename: stored, content: text })
    } else {
        Some(RawFileInfo { external_id, filename: String::from_str(filename), content })
    }
}

// ── Records ──────────────────────────────────────────────────────────

/// The catalog record of a file ingested into `source`: an English
/// article, private when the source holds personal data.
pub fn ingest_document(external_id: &str, filename: &str, content: &str, source: &DataSource) -> (d: Document)
    ensures
        d.source_id == source.id,
        d.external_id@ == external_id@,
        d.parent_id is None,
        d.depth == 0,
        d.title@ == doc_title(content@, filename@),
        d.content_type == ContentType::Article,
        d.language matches Some(l) && l@ == "en"@,
        d.content_hash.0@ == text_hash(content@),
        d.content_size == vstd::utf8::encode_utf8(content@).len(),
        d.privacy_level == (if source.class is Personal {
            PrivacyLevel::Private
        } else {
            PrivacyLevel::Public
        }),
{
    let privacy_level = if source.class.is_personal() {
        PrivacyLevel::Private
    } else {
        PrivacyLevel::Public
    };
    Document {
        id: new_id(),
        source_id: source.id,
        external_id: String::from_str(external_id),
        parent_id: None,
        depth: 0,
        title: extract_doc_title(content, filename),
        content_type: ContentType::Article,
        language: Some(String::from_str("en")),
        content_hash: hash_text(content),
        content_size: content.as_bytes().len() as u64,
        created_at: now_rfc3339(),
        indexed_at: now_rfc3339(),
        privacy_level,
    }
}

} // verus!
