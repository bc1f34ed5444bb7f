//! Splitting documents into search chunks.
//!
//! Articles, books and notes are split at `##`/`###` headings, and a
//! section that grows past the size limit is cut; conversations and small
//! records are one chunk each.
use vstd::prelude::*;
use crate::error::Error;
use crate::text::{
    char_len_utf8, lines, line_ranges, pieces, starts_with, str_chars, string_from_range, trim,
    trim_range, utf8_len,
};
use crate::types::{new_id, Chunk, ContentType, Document};

verus! {

/// A chunk as planned: its text, index and section heading.
pub type PlannedChunk = (Seq<char>, nat, Option<Seq<char>>);

/// The state of the section splitter: chunks so far, current section,
/// current text, and the index the next chunk gets.
pub type SplitState = (Seq<PlannedChunk>, Option<Seq<char>>, Seq<char>, nat);

/// A `##` or `###` heading line.
pub open spec fn is_section_heading(line: Seq<char>) -> bool {
    starts_with(line, "## "@) || starts_with(line, "### "@)
}

/// `s` without its leading `#` characters.
pub open spec fn strip_hashes(s: Seq<char>) -> Seq<char>
    decreases s.len(),
{
    if s.len() > 0 && s[0] == '#' {
        strip_hashes(s.drop_first())
    } else {
        s
    }
}

/// Adds the trimmed text as a chunk, unless it is blank.
pub open spec fn flush(chunks: Seq<PlannedChunk>, text: Seq<char>, index: nat, section: Option<Seq<char>>) -> Seq<PlannedChunk> {
    if trim(text).len() == 0 {
        chunks
    } else {
        chunks.push((trim(text), index, section))
    }
}

/// One line through the splitter.
pub open spec fn split_step(st: SplitState, line: Seq<char>, max: nat) -> SplitState {
    let (chunks, section, text, start) = st;
    if is_section_heading(line) {
        let chunks2 = flush(chunks, text, start, section);
        (chunks2, Some(trim(strip_hashes(line))), line + seq!['\n'], chunks2.len())
    } else {
        let text2 = text + line + seq!['\n'];
        if utf8_len(text2) > max {
            let chunks2 = flush(chunks, text2, start, section);
            (chunks2, section, seq![], chunks2.len())
        } else {
            (chunks, section, text2, start)
        }
    }
}

/// The splitter's state after the first `n` lines.
pub open spec fn split_run(ls: Seq<Seq<char>>, n: int, max: nat) -> SplitState
    decreases n,
{
    if n <= 0 {
        (seq![], None, seq![], 0)
    } else {
        split_step(split_run(ls, n - 1, max), ls[n - 1], max)
    }
}

/// The chunks of an article: the sections and cut pieces of its lines, or
/// the whole text as one chunk when they hold nothing but blanks.
pub open spec fn section_chunks(text: Seq<char>, max: nat) -> Seq<PlannedChunk> {
    let ls = lines(text);
    let (chunks, section, rest, start) = split_run(ls, ls.len() as int, max);
    let all = flush(chunks, rest, start, section);
    if all.len() == 0 {
        seq![(text, 0nat, None::<Seq<char>>)]
    } else {
        all
    }
}

proof fn lemma_split_run_numbered(ls: Seq<Seq<char>>, n: int, max: nat)
    ensures
        split_run(ls, n, max).3 == split_run(ls, n, max).0.len(),
        forall|i: int|
            0 <= i < split_run(ls, n, max).0.len() ==> (#[trigger] split_run(ls, n, max).0[i]).1 == i
                && split_run(ls, n, max).0[i].0.len() > 0,
    decreases n,
{
    if n > 0 {
        lemma_split_run_numbered(ls, n - 1, max);
    }
}

/// An article's chunks are numbered 0, 1, 2, ... in order; there is at
/// least one, and only the whole-text chunk of a blank article can be blank.
pub proof fn lemma_chunks_numbered(text: Seq<char>, max: nat)
    ensures
        section_chunks(text, max).len() >= 1,
        forall|i: int|
            0 <= i < section_chunks(text, max).len() ==> (#[trigger] section_chunks(text, max)[i]).1
                == i,
        forall|i: int|
            0 <= i < section_chunks(text, max).len() && section_chunks(text, max)[i].0.len() == 0
                ==> section_chunks(text, max).len() == 1 && #[trigger] section_chunks(text, max)[i]
                == (text, 0nat, None::<Seq<char>>),
{
    let ls = lines(text);
    lemma_split_run_numbered(ls, ls.len() as int, max);
}

/// Content types kept as one chunk.
pub open spec fn single_chunk_type(t: ContentType) -> bool {
    t == ContentType::Conversation || t == ContentType::Thread || t == ContentType::MediaMeta
        || t == ContentType::GpsSegment || t == ContentType::Record || t == ContentType::Email
}

/// The chunk carries the planned text, index and section, and the
/// document's identity, type, language and privacy.
pub open spec fn chunk_matches(c: Chunk, d: Document, p: PlannedChunk) -> bool {
    &&& c.text@ == p.0
    &&& c.chunk_index == p.1 as u32
    &&& match c.section_path {
        Some(s) => p.2 == Some(s@),
        None => p.2 is None,
    }
    &&& c.document_id == d.id
    &&& c.source_id == d.source_id
    &&& c.content_type == d.content_type
    &&& c.language == d.language
    &&& c.privacy_level == d.privacy_level
    &&& c.byte_start == 0
    &&& c.byte_end == byte_len(p.0)
    &&& c.timestamp is None
    &&& c.entity_ids@.len() == 0
}

/// The UTF-8 length of `s` as a `u64` (saturating, which no text in memory
/// reaches).
pub open spec fn byte_len(s: Seq<char>) -> u64 {
    if utf8_len(s) > u64::MAX {
        u64::MAX
    } else {
        utf8_len(s) as u64
    }
}

/// Splits documents into chunks.
#[derive(Debug, Clone, Copy)]
pub struct SemanticChunker {
    /// Size in bytes past which a section is cut.
    pub max_chunk_size: usize,
}

impl Default for SemanticChunker {
    fn default() -> (c: SemanticChunker)
        ensures
            c.max_chunk_size == 1500,
    {
        SemanticChunker { max_chunk_size: 1500 }
    }
}

/// A chunk of `document` with the given text, index and section.
pub fn make_chunk(document: &Document, text: &str, index: u32, section: Option<String>) -> (c: Chunk)
    ensures
        c.text@ == text@,
        c.chunk_index == index,
        c.section_path == section,
        c.document_id == document.id,
        c.source_id == document.source_id,
        c.content_type == document.content_type,
        c.language == document.language,
        c.privacy_level == document.privacy_level,
        c.byte_start == 0,
        c.byte_end == byte_len(text@),
        c.timestamp is None,
        c.entity_ids@.len() == 0,
{
    let v = str_chars(text);
    let mut n128: u128 = 0;
    let mut i: usize = 0;
    while i < v.len()
        invariant
            i <= v@.len(),
            v@ == text@,
            n128 == utf8_len(v@.take(i as int)),
            n128 <= 4 * i,
        decreases v.len() - i,
    {
        proof {
            assert(v@.take(i + 1).drop_last() =~= v@.take(i as int));
        }
        n128 = n128 + char_len_utf8(v[i]) as u128;
        i += 1;
    }
    assert(v@.take(v@.len() as int) =~= v@);
    let n: u64 = if n128 > u64::MAX as u128 {
        u64::MAX
    } else {
        n128 as u64
    };
    Chunk {
        id: new_id(),
        document_id: document.id,
        source_id: document.source_id,
        chunk_index: index,
        text: String::from_str(text),
        byte_start: 0,
        byte_end: n,
        section_path: section,
        content_type: document.content_type,
        language: match &document.language {
            Some(l) => Some(l.clone()),
            None => None,
        },
        timestamp: None,
        privacy_level: document.privacy_level,
        entity_ids: Vec::new(),
    }
}

proof fn lemma_utf8_len_bound(s: Seq<char>)
    ensures
        utf8_len(s) <= 4 * s.len(),
    decreases s.len(),
{
    if s.len() > 0 {
        lemma_utf8_len_bound(s.drop_last());
    }
}

/// The trimmed text of `cur` as a chunk, appended unless blank.
fn flush_exec(
    document: &Document,
    cur: &Vec<char>,
    index: usize,
    section: &Option<String>,
    chunks: &mut Vec<Chunk>,
    Ghost(planned): Ghost<Seq<PlannedChunk>>,
) -> (after: Ghost<Seq<PlannedChunk>>)
    requires
        old(chunks)@.len() == planned.len(),
        forall|i: int|
            0 <= i < planned.len() ==> chunk_matches(#[trigger] old(chunks)@[i], *document, planned[i]),
    ensures
        after@ == flush(planned, cur@, index as nat, opt_text(*section)),
        final(chunks)@.len() == after@.len(),
        forall|i: int|
            0 <= i < after@.len() ==> chunk_matches(#[trigger] final(chunks)@[i], *document, after@[i]),
{
    let (a, b) = trim_range(cur.as_slice(), 0, cur.len());
    assert(cur@.subrange(0, cur@.len() as int) =~= cur@);
    if a == b {
        return Ghost(planned);
    }
    let text = string_from_range(cur.as_slice(), a, b);
    let sec = match section {
        Some(s) => Some(s.clone()),
        None => None,
    };
    let c = make_chunk(document, text.as_str(), #[verifier::truncate] (index as u32), sec);
    let ghost before = chunks@;
    chunks.push(c);
    let ghost after = planned.push((trim(cur@), index as nat, opt_text(*section)));
    assert forall|i: int| 0 <= i < after.len() implies chunk_matches(
        #[trigger] chunks@[i],
        *document,
        after[i],
    ) by {
        if i < planned.len() {
            assert(chunks@[i] == before[i]);
        }
    }
    Ghost(after)
}

/// The text of an optional string.
pub open spec fn opt_text(o: Option<String>) -> Option<Seq<char>> {
    match o {
        Some(s) => Some(s@),
        None => None,
    }
}

/// Whether `v[a..b]` starts with `p`.
fn range_starts_with(v: &[char], a: usize, b: usize, p: &[char]) -> (r: bool)
    requires
        a <= b <= v@.len(),
    ensures
        r == starts_with(v@.subrange(a as int, b as int), p@),
{
    let piece = &v[a..b];
    assert(piece@ == v@.subrange(a as int, b as int));
    crate::text::starts_with_exec(piece, p)
}

impl SemanticChunker {
    /// The chunks of an article: split at `##`/`###` headings, a section cut
    /// once its text passes `max_chunk_size` bytes.
    #[verifier::rlimit(60)]
    pub fn split_by_sections(&self, document: &Document, text: &str) -> (r: Vec<Chunk>)
        ensures
            r@.len() == section_chunks(text@, self.max_chunk_size as nat).len(),
            forall|i: int|
                0 <= i < r@.len() ==> chunk_matches(
                    #[trigger] r@[i],
                    *document,
                    section_chunks(text@, self.max_chunk_size as nat)[i],
                ),
    {
        let max = self.max_chunk_size;
        let ghost maxn = max as nat;
        let v = str_chars(text);
        let vlen = v.len();
        let ranges = line_ranges(v.as_slice());
        let ghost ls = lines(v@);
        let h2 = str_chars("## ");
        let h3 = str_chars("### ");
        proof {
            reveal_strlit("## ");
            reveal_strlit("### ");
        }
        let mut chunks: Vec<Chunk> = Vec::new();
        let mut section: Option<String> = None;
        let mut cur: Vec<char> = Vec::new();
        let mut cur_bytes: u128 = 0;
        let mut start: usize = 0;
        let ghost mut planned: Seq<PlannedChunk> = seq![];
        let mut k: usize = 0;
        while k < ranges.len()
            invariant
                v@ == text@,
                pieces(v@, ranges@) == ls,
                ls == lines(v@),
                maxn == max,
                h2@ == "## "@,
                h3@ == "### "@,
                k <= ranges@.len(),
                forall|i: int| 0 <= i < ranges@.len() ==> (#[trigger] ranges@[i]).0 <= ranges@[i].1 <= v@.len(),
                split_run(ls, k as int, maxn) == (planned, opt_text(section), cur@, start as nat),
                chunks@.len() == planned.len(),
                forall|i: int| 0 <= i < planned.len() ==> chunk_matches(#[trigger] chunks@[i], *document, planned[i]),
                cur_bytes == utf8_len(cur@),
                cur_bytes <= 4 * cur@.len(),
                v@.len() <= usize::MAX,
                forall|i: int| 0 < i < ranges@.len() ==> ranges@[i - 1].1 <= (#[trigger] ranges@[i]).0,
                ranges@.len() <= v@.len(),
                cur@.len() <= (if k == 0 { 0 } else { ranges@[k - 1].1 as int }) + k,
            decreases ranges@.len() - k,
        {
            let (a, b) = ranges[k];
            let ghost line = v@.subrange(a as int, b as int);
            assert(k > 0 ==> ranges@[k - 1].1 <= a);
            assert(ls[k as int] == line);
            assert(split_run(ls, k + 1, maxn) == split_step(split_run(ls, k as int, maxn), line, maxn));
            let heading = range_starts_with(v.as_slice(), a, b, h2.as_slice())
                || range_starts_with(v.as_slice(), a, b, h3.as_slice());
            if heading {
                let g = flush_exec(document, &cur, start, &section, &mut chunks, Ghost(planned));
                proof {
                    planned = g@;
                }
                let mut p = a;
                while p < b && v[p] == '#'
                    invariant
                        a <= p <= b <= v@.len(),
                        strip_hashes(v@.subrange(a as int, b as int)) == strip_hashes(v@.subrange(p as int, b as int)),
                    decreases b - p,
                {
                    assert(v@.subrange(p as int, b as int).drop_first() =~= v@.subrange(p + 1, b as int));
                    p += 1;
                }
                assert(strip_hashes(v@.subrange(p as int, b as int)) == v@.subrange(p as int, b as int));
                let (ta, tb) = trim_range(v.as_slice(), p, b);
                section = Some(string_from_range(v.as_slice(), ta, tb));
                let mut fresh: Vec<char> = Vec::new();
                let mut q = a;
                while q < b
                    invariant
                        a <= q <= b <= v@.len(),
                        fresh@ == v@.subrange(a as int, q as int),
                    decreases b - q,
                {
                    fresh.push(v[q]);
                    assert(v@.subrange(a as int, q + 1) =~= v@.subrange(a as int, q as int).push(v@[q as int]));
                    q += 1;
                }
                fresh.push('\n');
                cur = fresh;
                proof {
                    lemma_utf8_len_bound(cur@);
                }
                cur_bytes = 0;
                let mut t: usize = 0;
                while t < cur.len()
                    invariant
                        t <= cur@.len(),
                        cur_bytes == utf8_len(cur@.take(t as int)),
                        cur_bytes <= 4 * t,
                    decreases cur.len() - t,
                {
                    assert(cur@.take(t + 1).drop_last() =~= cur@.take(t as int));
                    cur_bytes = cur_bytes + char_len_utf8(cur[t]) as u128;
                    t += 1;
                }
                assert(cur@.take(cur@.len() as int) =~= cur@);
                start = chunks.len();
                assert(cur@ =~= line + seq!['\n']);
            } else {
                let ghost old_cur = cur@;
                let mut q = a;
                while q < b
                    invariant
                        a <= q <= b <= v@.len(),
                        cur@ == old_cur + v@.subrange(a as int, q as int),
                        cur_bytes == utf8_len(cur@),
                        cur_bytes <= 4 * cur@.len(),
                        old_cur.len() <= a + k,
                        v@.len() <= usize::MAX,
                        k <= v@.len(),
                    decreases b - q,
                {
                    proof {
                        assert((cur@.push(v@[q as int])).drop_last() =~= cur@);
                    }
                    cur_bytes = cur_bytes + char_len_utf8(v[q]) as u128;
                    cur.push(v[q]);
                    assert(v@.subrange(a as int, q + 1) =~= v@.subrange(a as int, q as int).push(v@[q as int]));
                    q += 1;
                }
                proof {
                    assert((cur@.push('\n')).drop_last() =~= cur@);
                }
                cur_bytes = cur_bytes + 1;
                cur.push('\n');
                assert(cur@ =~= old_cur + line + seq!['\n']);
                if cur_bytes > max as u128 {
                    let g = flush_exec(document, &cur, start, &section, &mut chunks, Ghost(planned));
                    proof {
                        planned = g@;
                    }
                    cur = Vec::new();
                    cur_bytes = 0;
                    start = chunks.len();
                }
            }
            k += 1;
        }
        let g = flush_exec(document, &cur, start, &section, &mut chunks, Ghost(planned));
        proof {
            planned = g@;
        }
        if chunks.len() == 0 {
            let c = make_chunk(document, text, 0, None);
            chunks.push(c);
        }
        chunks
    }

    /// The chunks of a document: one for conversations, threads, emails and
    /// small records, split by sections for everything else.
    pub fn chunk(&self, document: &Document, text: &str) -> (r: Result<Vec<Chunk>, Error>)
        ensures
            single_chunk_type(document.content_type) ==> (r matches Ok(cs) && cs@.len() == 1
                && chunk_matches(cs@[0], *document, (text@, 0nat, None::<Seq<char>>))),
            !single_chunk_type(document.content_type) ==> (r matches Ok(cs) && cs@.len()
                == section_chunks(text@, self.max_chunk_size as nat).len() && forall|i: int|
                0 <= i < cs@.len() ==> chunk_matches(
                    #[trigger] cs@[i],
                    *document,
                    section_chunks(text@, self.max_chunk_size as nat)[i],
                )),
    {
        match document.content_type {
            ContentType::Conversation | ContentType::Thread | ContentType::MediaMeta
            | ContentType::GpsSegment | ContentType::Record | ContentType::Email => {
                let mut v: Vec<Chunk> = Vec::new();
                v.push(make_chunk(document, text, 0, None));
                Ok(v)
            },
            _ => Ok(self.split_by_sections(document, text)),
        }
    }
}

} // verus!
