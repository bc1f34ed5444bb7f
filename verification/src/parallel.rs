//! Decisions of the parallel ZIM ingestion: worker configuration, what a
//! worker makes of an article, and the writer's block bookkeeping.
//!
//! The program runs the reader, worker and writer threads and the channels
//! between them; each step here is what one of them decides.
use vstd::prelude::*;
use uuid::Uuid;
use crate::chunker::{chunk_matches, section_chunks, SemanticChunker};
use crate::chunker::opt_text;
use crate::html::{html_to_markdown, markdown_of};
use crate::sources::{hash_text, text_hash};
use crate::text::{char_len_utf8, str_chars, string_from_range, trim, trim_range, utf8_len};
use crate::types::{new_id, now_rfc3339, Chunk, ContentType, Document, PrivacyLevel};
use crate::wikilinks::{extract_wikilinks, WikilinkCounts};

verus! {

/// Articles per block commit unless configured.
pub const DEFAULT_BLOCK_SIZE: u64 = 20000;

/// Sources with more entries than this are large.
pub const LARGE_SOURCE_ENTRIES: u64 = 100000;

/// Entities are not extracted from sources with this many entries or more.
pub const ENTITY_LIMIT_ENTRIES: u64 = 500000;

/// Bytes of a large source's article that go into the full-text index.
pub const FTS_TEXT_LIMIT: usize = 2000;

/// Configuration of the parallel pipeline.
#[derive(Debug, Clone, Copy)]
pub struct PipelineConfig {
    /// Number of worker threads.
    pub threads: usize,
    /// Articles per block commit.
    pub block_size: u64,
    /// Treat the source as large whatever its size.
    pub large_source: bool,
    /// Privacy level of the documents.
    pub privacy_level: PrivacyLevel,
    /// Extract entities from wikilinks.
    pub extract_entities: bool,
}

impl PipelineConfig {
    /// The configuration from the thread and block-size settings (when
    /// given) and the number of CPUs: half the CPUs, at least one thread,
    /// and blocks of `DEFAULT_BLOCK_SIZE`.
    pub fn from_settings(threads: Option<usize>, block_size: Option<u64>, cpus: usize) -> (c: PipelineConfig)
        ensures
            c.threads == (match threads {
                Some(t) => if t > 1 { t } else { 1 },
                None => if cpus / 2 > 1 { cpus / 2 } else { 1 },
            }),
            c.block_size == (match block_size {
                Some(b) => b,
                None => DEFAULT_BLOCK_SIZE,
            }),
            !c.large_source,
            c.privacy_level == PrivacyLevel::Public,
            c.extract_entities,
    {
        let t = match threads {
            Some(t) => t,
            None => cpus / 2,
        };
        PipelineConfig {
            threads: if t > 1 { t } else { 1 },
            block_size: match block_size {
                Some(b) => b,
                None => DEFAULT_BLOCK_SIZE,
            },
            large_source: false,
            privacy_level: PrivacyLevel::Public,
            extract_entities: true,
        }
    }

    /// Whether the source is handled as large: configured so, or more than
    /// `LARGE_SOURCE_ENTRIES` entries.
    pub fn is_large(&self, total_entries: u64) -> (b: bool)
        ensures
            b == (self.large_source || total_entries > LARGE_SOURCE_ENTRIES),
    {
        self.large_source || total_entries > LARGE_SOURCE_ENTRIES
    }

    /// Whether entities are extracted: configured so, and fewer than
    /// `ENTITY_LIMIT_ENTRIES` entries.
    pub fn extracts_entities(&self, total_entries: u64) -> (b: bool)
        ensures
            b == (self.extract_entities && total_entries < ENTITY_LIMIT_ENTRIES),
    {
        self.extract_entities && total_entries < ENTITY_LIMIT_ENTRIES
    }
}

/// What the parallel ingestion reports.
#[derive(Debug, Clone, Copy)]
pub struct PipelineMetrics {
    pub doc_count: u64,
    pub entities_count: u64,
    pub blocks: u64,
    pub elapsed_secs: u64,
}

// ── Worker ───────────────────────────────────────────────────────────

/// The number of characters of `s` from `k` on that fit in `limit` bytes.
pub open spec fn grow_within(s: Seq<char>, limit: nat, k: int) -> int
    decreases s.len() - k,
{
    if 0 <= k < s.len() && utf8_len(s.take(k + 1)) <= limit {
        grow_within(s, limit, k + 1)
    } else {
        k
    }
}

/// The longest prefix of `s` that takes at most `limit` bytes (cut at a
/// character boundary, as `floor_char_boundary` does).
pub open spec fn prefix_within(s: Seq<char>, limit: nat) -> Seq<char> {
    s.take(grow_within(s, limit, 0))
}

proof fn lemma_grow_within_bounds(s: Seq<char>, limit: nat, k: int)
    requires
        0 <= k <= s.len(),
    ensures
        k <= grow_within(s, limit, k) <= s.len(),
    decreases s.len() - k,
{
    if k < s.len() && utf8_len(s.take(k + 1)) <= limit {
        lemma_grow_within_bounds(s, limit, k + 1);
    }
}

/// The text of a large source's article that is indexed.
pub fn fts_prefix(markdown: &str) -> (r: String)
    ensures
        r@ == prefix_within(markdown@, FTS_TEXT_LIMIT as nat),
{
    let v = str_chars(markdown);
    let mut k: usize = 0;
    let mut bytes: usize = 0;
    while k < v.len()
        invariant
            k <= v@.len(),
            bytes == utf8_len(v@.take(k as int)),
            bytes <= FTS_TEXT_LIMIT,
            grow_within(v@, FTS_TEXT_LIMIT as nat, k as int) == grow_within(v@, FTS_TEXT_LIMIT as nat, 0),
        ensures
            k <= v@.len(),
            grow_within(v@, FTS_TEXT_LIMIT as nat, k as int) == grow_within(v@, FTS_TEXT_LIMIT as nat, 0),
            k == v@.len() || utf8_len(v@.take(k + 1)) > FTS_TEXT_LIMIT,
        decreases v.len() - k,
    {
        assert(v@.take(k + 1).drop_last() =~= v@.take(k as int));
        let n = bytes + char_len_utf8(v[k]);
        if n > FTS_TEXT_LIMIT {
            break;
        }
        bytes = n;
        k += 1;
    }
    assert(grow_within(v@, FTS_TEXT_LIMIT as nat, k as int) == k);
    assert(v@.subrange(0, k as int) =~= v@.take(k as int));
    string_from_range(v.as_slice(), 0, k)
}

/// What a worker makes of an article.
#[derive(Debug)]
pub struct ProcessedArticle {
    pub doc: Document,
    pub markdown: String,
    pub chunks: Vec<Chunk>,
    pub wikilinks: WikilinkCounts,
}

/// The text of an article's Markdown that is indexed: all of it, or for a
/// large source its first `FTS_TEXT_LIMIT` bytes.
pub open spec fn indexed_text(markdown: Seq<char>, large_source: bool) -> Seq<char> {
    if large_source {
        prefix_within(markdown, FTS_TEXT_LIMIT as nat)
    } else {
        markdown
    }
}

/// Converts an article to Markdown and prepares its document, chunks and
/// wikilinks; `converted` is what converting `html` gave. Articles that
/// convert to blank Markdown are skipped. Large sources index only the
/// first `FTS_TEXT_LIMIT` bytes; without entity extraction the wikilinks
/// are left empty.
pub fn process_article(
    path: &str,
    title: &str,
    html: &str,
    converted: Option<String>,
    source_id: Uuid,
    large_source: bool,
    extract_entities: bool,
    privacy_level: PrivacyLevel,
    chunker: &SemanticChunker,
) -> (r: Option<ProcessedArticle>)
    ensures
        trim(markdown_of(html@, opt_text(converted))).len() == 0 ==> r is None,
        trim(markdown_of(html@, opt_text(converted))).len() > 0 ==> (r matches Some(p) && p.markdown@ == markdown_of(html@, opt_text(converted))
            && p.doc.external_id@ == path@ && p.doc.title@ == title@ && p.doc.source_id == source_id
            && p.doc.content_type == ContentType::Article && p.doc.language is None
            && p.doc.content_hash.0@ == text_hash(markdown_of(html@, opt_text(converted)))
            && p.doc.privacy_level == privacy_level && p.doc.parent_id is None && p.doc.depth == 0
            && p.chunks@.len() == section_chunks(
                indexed_text(markdown_of(html@, opt_text(converted)), large_source),
                chunker.max_chunk_size as nat,
            ).len() && (forall|i: int|
                0 <= i < p.chunks@.len() ==> chunk_matches(
                    #[trigger] p.chunks@[i],
                    p.doc,
                    section_chunks(indexed_text(markdown_of(html@, opt_text(converted)), large_source), chunker.max_chunk_size as nat)[i],
                ))
            && (extract_entities ==> p.wikilinks@
            == crate::wikilinks::mention_map(crate::wikilinks::wikilink_names(markdown_of(html@, opt_text(converted)))))
            && (!extract_entities ==> p.wikilinks@.dom().len() == 0)),
{
    let markdown = html_to_markdown(html, converted);
    let mv = str_chars(markdown.as_str());
    let (a, b) = trim_range(mv.as_slice(), 0, mv.len());
    assert(mv@.subrange(0, mv@.len() as int) =~= mv@);
    if a == b {
        return None;
    }
    let created = now_rfc3339();
    let indexed = now_rfc3339();
    let doc = Document {
        id: new_id(),
        source_id,
        external_id: String::from_str(path),
        parent_id: None,
        depth: 0,
        title: String::from_str(title),
        content_type: ContentType::Article,
        language: None,
        content_hash: hash_text(markdown.as_str()),
        content_size: markdown.as_str().as_bytes().len() as u64,
        created_at: created,
        indexed_at: indexed,
        privacy_level,
    };
    let chunks = if large_source {
        let fts = fts_prefix(markdown.as_str());
        match chunker.chunk(&doc, fts.as_str()) {
            Ok(c) => c,
            Err(_) => Vec::new(),
        }
    } else {
        match chunker.chunk(&doc, markdown.as_str()) {
            Ok(c) => c,
            Err(_) => Vec::new(),
        }
    };
    let wikilinks = if extract_entities {
        extract_wikilinks(markdown.as_str())
    } else {
        WikilinkCounts::new()
    };
    Some(ProcessedArticle { doc, markdown, chunks, wikilinks })
}

// ── Writer ───────────────────────────────────────────────────────────

/// What the writer does for one article.
#[derive(Debug, Clone, Copy)]
pub struct WriteDecision {
    /// Write the article's Markdown to the content store.
    pub write_file: bool,
    /// Close the current block: commit the catalog batch and the index.
    pub commit_block: bool,
}

/// Large sources keep every this many-th article as a file.
pub const FILE_SAMPLE_EVERY: u64 = 100;

/// The writer's counters.
#[derive(Debug, Clone, Copy)]
pub struct WriterState {
    block_size: u64,
    large_source: bool,
    count: u64,
    block_num: u64,
    entities_count: u64,
}

/// Blocks completed after `count` articles with blocks of `block_size`
/// (none when the block size is zero).
pub open spec fn blocks_after(count: int, block_size: int) -> int {
    if block_size > 0 {
        count / block_size
    } else {
        0
    }
}

impl WriterState {
    /// Articles written.
    pub closed spec fn count(&self) -> u64 {
        self.count
    }

    /// Completed blocks.
    pub closed spec fn block_num(&self) -> u64 {
        self.block_num
    }

    /// Entity mentions recorded.
    pub closed spec fn entities(&self) -> u64 {
        self.entities_count
    }

    /// Block size and whether the source is large.
    pub closed spec fn settings(&self) -> (u64, bool) {
        (self.block_size, self.large_source)
    }

    /// The counters agree: completed blocks are the article count divided
    /// by the block size.
    pub closed spec fn wf(&self) -> bool {
        self.block_num == blocks_after(self.count as int, self.block_size as int)
    }

    /// A writer that has written nothing.
    pub fn new(block_size: u64, large_source: bool) -> (w: WriterState)
        ensures
            w.wf(),
            w.count() == 0,
            w.block_num() == 0,
            w.entities() == 0,
            w.settings() == (block_size, large_source),
    {
        WriterState { block_size, large_source, count: 0, block_num: 0, entities_count: 0 }
    }

    /// The decision for the next article, which mentions `wikilinks`
    /// entities: large sources keep one file in `FILE_SAMPLE_EVERY`
    /// (counting from the first article), and a block closes after every
    /// `block_size` articles.
    pub fn on_article(&mut self, wikilinks: u64) -> (d: WriteDecision)
        requires
            old(self).wf(),
            old(self).count() < u64::MAX,
            old(self).entities() + wikilinks <= u64::MAX,
        ensures
            final(self).wf(),
            final(self).settings() == old(self).settings(),
            final(self).count() == old(self).count() + 1,
            final(self).entities() == old(self).entities() + wikilinks,
            d.write_file == (!old(self).settings().1 || old(self).count() % FILE_SAMPLE_EVERY == 0),
            d.commit_block == (old(self).settings().0 > 0 && final(self).count() % old(self).settings().0 == 0),
            final(self).block_num() == old(self).block_num() + if d.commit_block { 1int } else { 0int },
    {
        let write_file = !self.large_source || self.count % FILE_SAMPLE_EVERY == 0;
        self.entities_count = self.entities_count + wikilinks;
        let c = self.count;
        self.count = c + 1;
        let bs = self.block_size;
        let commit_block = bs > 0 && self.count % bs == 0;
        if commit_block {
            self.block_num = self.block_num + 1;
        }
        proof {
            if bs > 0 {
                lemma_div_step(c as int, bs as int);
            }
        }
        WriteDecision { write_file, commit_block }
    }

    /// The report once the stream of articles has ended: the last, partial
    /// block counts too.
    pub fn finish(&self, elapsed_secs: u64) -> (m: PipelineMetrics)
        requires
            self.block_num() < u64::MAX,
        ensures
            m.doc_count == self.count(),
            m.entities_count == self.entities(),
            m.blocks == self.block_num() + 1,
            m.elapsed_secs == elapsed_secs,
    {
        PipelineMetrics {
            doc_count: self.count,
            entities_count: self.entities_count,
            blocks: self.block_num + 1,
            elapsed_secs,
        }
    }

    /// Articles written.
    pub fn written(&self) -> (n: u64)
        ensures
            n == self.count(),
    {
        self.count
    }

    /// Completed blocks.
    pub fn blocks(&self) -> (n: u64)
        ensures
            n == self.block_num(),
    {
        self.block_num
    }
}

proof fn lemma_div_step(c: int, b: int)
    requires
        c >= 0,
        b > 0,
    ensures
        (c + 1) / b == c / b + if (c + 1) % b == 0 { 1int } else { 0int },
{
    vstd::arithmetic::div_mod::lemma_fundamental_div_mod(c, b);
    vstd::arithmetic::div_mod::lemma_fundamental_div_mod(c + 1, b);
    vstd::arithmetic::div_mod::lemma_mod_bound(c, b);
    vstd::arithmetic::div_mod::lemma_mod_bound(c + 1, b);
    if (c + 1) % b == 0 {
        assert(c % b == b - 1) by (nonlinear_arith)
            requires
                c == b * (c / b) + c % b,
                c + 1 == b * ((c + 1) / b) + (c + 1) % b,
                (c + 1) % b == 0,
                0 <= c % b < b,
        {
        }
        assert((c + 1) / b == c / b + 1) by (nonlinear_arith)
            requires
                c == b * (c / b) + c % b,
                c + 1 == b * ((c + 1) / b),
                c % b == b - 1,
                b > 0,
        {
        }
    } else {
        assert((c + 1) / b == c / b) by (nonlinear_arith)
            requires
                c == b * (c / b) + c % b,
                c + 1 == b * ((c + 1) / b) + (c + 1) % b,
                0 <= c % b < b,
                0 < (c + 1) % b < b,
                b > 0,
        {
        }
    }
}

/// Throughput: articles per second, or the count when under a second
/// has passed.
pub fn rate(count: u64, elapsed_secs: u64) -> (r: u64)
    ensures
        r == if elapsed_secs > 0 { count / elapsed_secs } else { count },
{
    if elapsed_secs > 0 {
        count / elapsed_secs
    } else {
        count
    }
}

/// After a stream of `n` articles, the writer has completed
/// `n / block_size` blocks (none for a zero block size) and reports one more.
pub proof fn lemma_blocks_after_stream(w: WriterState)
    requires
        w.wf(),
    ensures
        w.block_num() == blocks_after(w.count() as int, w.settings().0 as int),
{
}

} // verus!
