//! Exact substring search over all ingested text, through an FM-index:
//! the corpus layout, the lookup of a match's document and its context,
//! and the one-hit-per-document gathering of results.
use vstd::prelude::*;
use vstd::string::StringSliceAdditionalSpecFns;
use fm_index::{FMIndexWithLocate, MatchWithLocate, Search, SearchIndex, Text};
use std::time::{Duration, Instant};
use crate::error::Error;
use crate::text::{str_chars, string_push};
use crate::zim::{lossy_string, utf8_lossy};

verus! {

// ── The index of the outside crate ───────────────────────────────────

/// `fm_index::FMIndexWithLocate<u8>`, held opaque: its declaration with the
/// crate's `Character` bound is refused.
#[verifier::external_body]
pub struct FmIndex {
    inner: FMIndexWithLocate<u8>,
}

#[verifier::external_type_specification]
#[verifier::external_body]
pub struct ExInstant(Instant);

/// The text an index was built over.
pub uninterp spec fn fm_text(index: FmIndex) -> Seq<u8>;

/// The positions at which `pattern` occurs in `text`, in the order the
/// index yields its matches.
pub uninterp spec fn fm_positions(text: Seq<u8>, pattern: Seq<u8>) -> Seq<usize>;

/// No zero byte before the last one.
pub open spec fn zero_free_body(t: Seq<u8>) -> bool {
    forall|j: int| 0 <= j < t.len() - 1 ==> #[trigger] t[j] != 0
}

/// `pattern` occurs in `text` at position `p`.
pub open spec fn occurs_at(text: Seq<u8>, pattern: Seq<u8>, p: int) -> bool {
    0 <= p && p + pattern.len() <= text.len() && text.subrange(p, p + pattern.len()) == pattern
}

/// The number of positions below `n` at which `pattern` occurs in `text`.
pub open spec fn occurrences_below(text: Seq<u8>, pattern: Seq<u8>, n: int) -> nat
    decreases n,
{
    if n <= 0 {
        0
    } else {
        occurrences_below(text, pattern, n - 1) + if occurs_at(text, pattern, n - 1) {
            1nat
        } else {
            0nat
        }
    }
}

/// The number of occurrences of `pattern` in `text`.
pub open spec fn occurrence_count(text: Seq<u8>, pattern: Seq<u8>) -> nat {
    occurrences_below(text, pattern, text.len() as int)
}

/// A text the index searches exactly: no zero byte but a final one.
pub open spec fn terminated_text(t: Seq<u8>) -> bool {
    zero_free_body(t) && (t.len() == 0 || t[t.len() - 1] == 0)
}

/// A pattern the index finds exactly where it occurs: not empty, and free
/// of the zero byte that ends the text.
pub open spec fn plain_pattern(p: Seq<u8>) -> bool {
    p.len() > 0 && forall|j: int| 0 <= j < p.len() ==> #[trigger] p[j] != 0
}

/// The first `n` items of `s` (all of them when there are fewer).
pub open spec fn first_n<T>(s: Seq<T>, n: int) -> Seq<T> {
    if n < s.len() {
        s.take(n)
    } else {
        s
    }
}

/// `FMIndexWithLocate::new(&Text::new(text), level)`. The suffix-array
/// construction refuses a text of two or more bytes unless it starts with a
/// non-zero byte and ends with exactly one zero byte; it is only handed
/// texts with no zero byte before the last, for which that is the last
/// byte being zero. What a text with inner zero bytes would give is left
/// unsaid.
#[verifier::external_body]
fn fm_build(text: Vec<u8>, level: usize) -> (r: Result<FmIndex, String>)
    requires
        zero_free_body(text@),
        level < 64,
    ensures
        r is Ok <==> (text@.len() <= 1 || text@[text@.len() - 1] == 0),
        r matches Ok(i) ==> fm_text(i) == text@,
{
    match FMIndexWithLocate::new(&Text::new(text), level) {
        Ok(inner) => Ok(FmIndex { inner }),
        Err(e) => Err(e.to_string()),
    }
}

/// `index.search(pattern).iter_matches()`, located, at most `max` of them:
/// positions in the index's text, in the order the index yields them. Each
/// match is a different row of the suffix array, so no position comes
/// twice; over a terminated text a plain pattern's positions are
/// occurrences of it (backward search on the Burrows-Wheeler transform).
#[verifier::external_body]
fn fm_locate(index: &FmIndex, pattern: &[u8], max: usize) -> (r: Vec<usize>)
    ensures
        r@ == first_n(fm_positions(fm_text(*index), pattern@), max as int),
        forall|k: int| 0 <= k < r@.len() ==> #[trigger] r@[k] < fm_text(*index).len(),
        forall|i: int, j: int| 0 <= i < j < r@.len() ==> r@[i] != r@[j],
        terminated_text(fm_text(*index)) && plain_pattern(pattern@) ==> forall|k: int|
            0 <= k < r@.len() ==> occurs_at(fm_text(*index), pattern@, #[trigger] r@[k] as int),
{
    let found = index.inner.search(pattern);
    let mut r = Vec::new();
    for m in found.iter_matches().take(max) {
        r.push(m.locate());
    }
    r
}

/// `index.search(pattern).count()`: the number of matches, which over a
/// terminated text is, for a plain pattern, the number of its occurrences.
#[verifier::external_body]
fn fm_count(index: &FmIndex, pattern: &[u8]) -> (r: usize)
    ensures
        r == fm_positions(fm_text(*index), pattern@).len(),
        terminated_text(fm_text(*index)) && plain_pattern(pattern@) ==> r == occurrence_count(
            fm_text(*index),
            pattern@,
        ),
{
    index.inner.search(pattern).count()
}

/// `index.heap_size()`; what it reports is left unsaid.
#[verifier::external_body]
fn fm_heap_size(index: &FmIndex) -> usize {
    index.inner.heap_size()
}

/// `Instant::now()`.
#[verifier::external_body]
fn clock_now() -> Instant {
    Instant::now()
}

/// `Instant::elapsed`.
#[verifier::external_body]
fn clock_elapsed(start: &Instant) -> Duration {
    start.elapsed()
}

/// `Duration::as_millis`.
#[verifier::external_body]
fn duration_millis(d: &Duration) -> u128 {
    d.as_millis()
}

// ── Corpus ───────────────────────────────────────────────────────────

/// Where a document's text lies in the corpus.
#[derive(Debug, Clone)]
pub struct DocSpan {
    pub source: String,
    pub title: String,
    pub start: usize,
    pub end: usize,
}

/// A substring search hit with context.
#[derive(Debug, Clone)]
pub struct SubstringHit {
    pub source: String,
    pub title: String,
    pub position: usize,
    pub context: String,
}

/// Metrics from building the index.
#[derive(Debug, Clone, Copy)]
pub struct BuildMetrics {
    pub documents: usize,
    pub text_bytes: usize,
    pub index_bytes: usize,
    pub build_time_ms: u64,
}

/// A document's bytes as stored: zero bytes, which the index reserves,
/// become spaces.
pub open spec fn clean_bytes(b: Seq<u8>) -> Seq<u8> {
    b.map_values(|x: u8| if x == 0 { 32u8 } else { x })
}

/// The texts of the documents, as bytes.
pub open spec fn doc_texts(docs: Seq<(&str, &str, &str)>) -> Seq<Seq<u8>> {
    Seq::new(docs.len(), |i: int| docs[i].2.spec_bytes())
}

/// Each text, cleaned and followed by a separator byte 1.
pub open spec fn corpus(texts: Seq<Seq<u8>>) -> Seq<u8>
    decreases texts.len(),
{
    if texts.len() == 0 {
        seq![]
    } else {
        corpus(texts.drop_last()) + clean_bytes(texts.last()) + seq![1u8]
    }
}

/// The corpus with its last separator turned into the terminating zero.
pub open spec fn terminated(c: Seq<u8>) -> Seq<u8> {
    if c.len() == 0 {
        c
    } else {
        c.update(c.len() - 1, 0u8)
    }
}

/// The span of document `i`: its source, title, and the bounds of its text.
pub open spec fn span_of(docs: Seq<(&str, &str, &str)>, i: int) -> (Seq<char>, Seq<char>, int, int) {
    let start = corpus(doc_texts(docs).take(i)).len();
    (docs[i].0@, docs[i].1@, start as int, (start + docs[i].2.spec_bytes().len()) as int)
}

/// The view of a span.
pub open spec fn span_view(d: DocSpan) -> (Seq<char>, Seq<char>, int, int) {
    (d.source@, d.title@, d.start as int, d.end as int)
}

/// Sampling of the suffix array: dense for a small corpus, sparse for a
/// large one.
pub open spec fn sampling_level(n: int) -> usize {
    if n < 1_000_000 {
        2
    } else if n < 100_000_000 {
        8
    } else {
        32
    }
}

proof fn lemma_corpus_nonzero(texts: Seq<Seq<u8>>)
    ensures
        forall|k: int| 0 <= k < corpus(texts).len() ==> #[trigger] corpus(texts)[k] != 0,
    decreases texts.len(),
{
    if texts.len() > 0 {
        lemma_corpus_nonzero(texts.drop_last());
        let c = corpus(texts.drop_last());
        let t = clean_bytes(texts.last());
        assert forall|k: int| 0 <= k < corpus(texts).len() implies #[trigger] corpus(texts)[k]
            != 0 by {
            if k < c.len() {
                assert(corpus(texts)[k] == c[k]);
            } else if k < c.len() + t.len() {
                assert(corpus(texts)[k] == t[k - c.len()]);
            }
        }
    }
}

/// The text that `build` indexes is terminated: no zero byte but the last,
/// so the index finds each plain pattern exactly where it occurs.
pub proof fn lemma_built_corpus_is_terminated(texts: Seq<Seq<u8>>)
    ensures
        terminated_text(terminated(corpus(texts))),
{
    lemma_corpus_nonzero(texts);
    let c = corpus(texts);
    let t = terminated(c);
    assert forall|j: int| 0 <= j < t.len() - 1 implies #[trigger] t[j] != 0 by {
        assert(t[j] == c[j]);
    }
}

proof fn lemma_corpus_step(texts: Seq<Seq<u8>>, i: int)
    requires
        0 <= i < texts.len(),
    ensures
        corpus(texts.take(i + 1)) == corpus(texts.take(i)) + clean_bytes(texts[i]) + seq![1u8],
        corpus(texts.take(i + 1)).len() == corpus(texts.take(i)).len() + texts[i].len() + 1,
{
    assert(texts.take(i + 1).drop_last() =~= texts.take(i));
}

/// The sampling level for a corpus of `n` bytes.
fn sampling_for(n: usize) -> (l: usize)
    ensures
        l == sampling_level(n as int),
{
    if n < 1_000_000 {
        2
    } else if n < 100_000_000 {
        8
    } else {
        32
    }
}

// ── Resolving a match ────────────────────────────────────────────────

/// `pos` lies in the text of `d`.
pub open spec fn in_span(d: DocSpan, pos: int) -> bool {
    d.start <= pos < d.end
}

/// `i` is the first span that holds `pos`.
pub open spec fn is_first_span(map: Seq<DocSpan>, pos: int, i: int) -> bool {
    &&& 0 <= i < map.len()
    &&& in_span(map[i], pos)
    &&& forall|j: int| 0 <= j < i ==> !in_span(#[trigger] map[j], pos)
}

/// The first span that holds `pos`, if any.
pub open spec fn first_span(map: Seq<DocSpan>, pos: int) -> Option<int> {
    if exists|i: int| is_first_span(map, pos, i) {
        Some(choose|i: int| is_first_span(map, pos, i))
    } else {
        None
    }
}

proof fn lemma_first_span_unique(map: Seq<DocSpan>, pos: int, i: int)
    requires
        is_first_span(map, pos, i),
    ensures
        first_span(map, pos) == Some(i),
{
    let k = choose|k: int| is_first_span(map, pos, k);
    assert(is_first_span(map, pos, k));
    if k < i {
        assert(!in_span(map[k], pos));
    } else if k > i {
        assert(!in_span(map[i], pos));
    }
}

/// Line breaks flattened: a newline becomes a space, a carriage return
/// goes.
pub open spec fn flatten_breaks(s: Seq<char>) -> Seq<char>
    decreases s.len(),
{
    if s.len() == 0 {
        s
    } else {
        let rest = flatten_breaks(s.drop_last());
        if s.last() == '\n' {
            rest.push(' ')
        } else if s.last() == '\r' {
            rest
        } else {
            rest.push(s.last())
        }
    }
}

/// Up to 60 bytes before a match of `m` bytes at `pos` and 60 after it,
/// inside the document and the corpus.
pub open spec fn context_window(d: DocSpan, text_len: int, pos: int, m: int) -> (int, int) {
    let a = if pos >= 60 { pos - 60 } else { 0 };
    let e = pos + m + 60;
    let b1 = if e < d.end { e } else { d.end as int };
    let b = if text_len < b1 { text_len } else { b1 };
    (a, b)
}

/// A hit, as plain values: source, title, position in the document, context.
pub type HitView = (Seq<char>, Seq<char>, usize, Seq<char>);

/// The view of a hit.
pub open spec fn hit_view(h: SubstringHit) -> HitView {
    (h.source@, h.title@, h.position, h.context@)
}

/// The views of hits.
pub open spec fn hit_views(hs: Seq<SubstringHit>) -> Seq<HitView> {
    hs.map_values(|h: SubstringHit| hit_view(h))
}

/// The hit for a match at `pos` inside `d`: the context decoded leniently,
/// breaks flattened, and `...` where it was cut short of the document.
pub open spec fn hit_for(d: DocSpan, text: Seq<u8>, pos: int, m: int) -> HitView {
    let (a, b) = context_window(d, text.len() as int, pos, m);
    let ctx = flatten_breaks(utf8_lossy(text.subrange(a, b)));
    (
        d.source@,
        d.title@,
        (pos - d.start) as usize,
        (if a > d.start { "..."@ } else { seq![] }) + ctx + (if b < d.end { "..."@ } else { seq![] }),
    )
}

/// The hit for a match at `pos`, when a document holds it.
pub open spec fn resolve_spec(map: Seq<DocSpan>, text: Seq<u8>, pos: int, m: int) -> Option<HitView> {
    match first_span(map, pos) {
        Some(i) => Some(hit_for(map[i], text, pos, m)),
        None => None,
    }
}

/// The context window of a match at `pos` is well ordered (slicing it
/// cannot fail).
pub open spec fn window_ok(map: Seq<DocSpan>, text_len: int, pos: int, m: int) -> bool {
    match first_span(map, pos) {
        Some(i) => context_window(map[i], text_len, pos, m).0 <= context_window(
            map[i],
            text_len,
            pos,
            m,
        ).1,
        None => true,
    }
}

/// The key by which hits count as the same document.
pub open spec fn hit_key(h: HitView) -> Seq<char> {
    h.0 + ":"@ + h.1
}

/// `hs` has a hit with key `k`.
pub open spec fn has_key(hs: Seq<HitView>, k: Seq<char>) -> bool {
    exists|j: int| 0 <= j < hs.len() && hit_key(#[trigger] hs[j]) == k
}

/// Hits for the matches at `ps`, in order: one per document (by key), at
/// most `limit`.
pub open spec fn gather(map: Seq<DocSpan>, text: Seq<u8>, ps: Seq<usize>, m: int, limit: int) -> Seq<
    HitView,
>
    decreases ps.len(),
{
    if ps.len() == 0 {
        seq![]
    } else {
        let prev = gather(map, text, ps.drop_last(), m, limit);
        if prev.len() >= limit {
            prev
        } else {
            match resolve_spec(map, text, ps.last() as int, m) {
                None => prev,
                Some(h) => if has_key(prev, hit_key(h)) {
                    prev
                } else {
                    prev.push(h)
                },
            }
        }
    }
}

/// Search gives at most `limit` hits, and never two for the same document.
pub proof fn lemma_gather_one_per_document(
    map: Seq<DocSpan>,
    text: Seq<u8>,
    ps: Seq<usize>,
    m: int,
    limit: int,
)
    requires
        limit >= 0,
    ensures
        gather(map, text, ps, m, limit).len() <= limit,
        forall|i: int, j: int|
            0 <= i < j < gather(map, text, ps, m, limit).len() ==> hit_key(
                #[trigger] gather(map, text, ps, m, limit)[i],
            ) != hit_key(#[trigger] gather(map, text, ps, m, limit)[j]),
    decreases ps.len(),
{
    if ps.len() > 0 {
        let prev = gather(map, text, ps.drop_last(), m, limit);
        lemma_gather_one_per_document(map, text, ps.drop_last(), m, limit);
        let g = gather(map, text, ps, m, limit);
        if prev.len() < limit {
            if let Some(h) = resolve_spec(map, text, ps.last() as int, m) {
                if !has_key(prev, hit_key(h)) {
                    assert(g == prev.push(h));
                    assert forall|i: int, j: int| 0 <= i < j < g.len() implies hit_key(
                        #[trigger] g[i],
                    ) != hit_key(#[trigger] g[j]) by {
                        if j == g.len() - 1 {
                            assert(g[i] == prev[i]);
                            if hit_key(prev[i]) == hit_key(h) {
                                assert(has_key(prev, hit_key(h)));
                            }
                        } else {
                            assert(g[i] == prev[i]);
                            assert(g[j] == prev[j]);
                        }
                    }
                }
            }
        }
    }
}

proof fn lemma_gather_grows(map: Seq<DocSpan>, text: Seq<u8>, ps: Seq<usize>, m: int, limit: int)
    requires
        ps.len() > 0,
    ensures
        ({
            let prev = gather(map, text, ps.drop_last(), m, limit);
            let g = gather(map, text, ps, m, limit);
            prev.len() <= g.len() && forall|j: int| 0 <= j < prev.len() ==> #[trigger] g[j] == prev[j]
        }),
{
}

/// Search drops a match only as a repeat of a document it has already
/// answered, or once it has `limit` hits: for every match that lies in a
/// document, while fewer than `limit` hits are given, a hit for that
/// document, named by the same source and title, is among them. Hits for
/// documents of different sources that share a title are all kept.
pub proof fn lemma_gather_answers_every_document(
    map: Seq<DocSpan>,
    text: Seq<u8>,
    ps: Seq<usize>,
    m: int,
    limit: int,
    k: int,
)
    requires
        0 <= k < ps.len(),
        resolve_spec(map, text, ps[k] as int, m) is Some,
        gather(map, text, ps, m, limit).len() < limit,
    ensures
        ({
            let h = resolve_spec(map, text, ps[k] as int, m)->0;
            let g = gather(map, text, ps, m, limit);
            exists|j: int|
                0 <= j < g.len() && (#[trigger] g[j]).0 + ":"@ + g[j].1 == h.0 + ":"@ + h.1
        }),
    decreases ps.len(),
{
    let h = resolve_spec(map, text, ps[k] as int, m)->0;
    let g = gather(map, text, ps, m, limit);
    let prev = gather(map, text, ps.drop_last(), m, limit);
    lemma_gather_grows(map, text, ps, m, limit);
    if k < ps.len() - 1 {
        assert(ps.drop_last()[k] == ps[k]);
        lemma_gather_answers_every_document(map, text, ps.drop_last(), m, limit, k);
        let j = choose|j: int|
            0 <= j < prev.len() && (#[trigger] prev[j]).0 + ":"@ + prev[j].1 == h.0 + ":"@ + h.1;
        assert(g[j] == prev[j]);
    } else {
        if has_key(prev, hit_key(h)) {
            let j = choose|j: int| 0 <= j < prev.len() && hit_key(#[trigger] prev[j]) == hit_key(h);
            assert(g[j] == prev[j]);
        } else {
            assert(g == prev.push(h));
            assert(g[prev.len() as int] == h);
        }
    }
}

/// Every hit names the document whose text holds the match, at the
/// match's offset inside that text.
pub proof fn lemma_hit_in_document(map: Seq<DocSpan>, text: Seq<u8>, pos: int, m: int)
    requires
        resolve_spec(map, text, pos, m) is Some,
    ensures
        exists|i: int|
            0 <= i < map.len() && in_span(#[trigger] map[i], pos) && ({
                let h = resolve_spec(map, text, pos, m)->0;
                &&& h.0 == map[i].source@
                &&& h.1 == map[i].title@
                &&& h.2 == pos - map[i].start
                &&& h.2 < map[i].end - map[i].start
            }),
{
    let i = first_span(map, pos)->0;
    assert(is_first_span(map, pos, i));
}

/// The first span holding `pos`.
fn find_span(map: &[DocSpan], pos: usize) -> (r: Option<usize>)
    ensures
        match r {
            Some(i) => first_span(map@, pos as int) == Some(i as int),
            None => first_span(map@, pos as int) is None,
        },
{
    let mut i: usize = 0;
    while i < map.len()
        invariant
            i <= map@.len(),
            forall|j: int| 0 <= j < i ==> !in_span(#[trigger] map@[j], pos as int),
        decreases map.len() - i,
    {
        if map[i].start <= pos && pos < map[i].end {
            proof {
                lemma_first_span_unique(map@, pos as int, i as int);
            }
            return Some(i);
        }
        i += 1;
    }
    proof {
        if exists|k: int| is_first_span(map@, pos as int, k) {
            let k = choose|k: int| is_first_span(map@, pos as int, k);
            assert(!in_span(map@[k], pos as int));
        }
    }
    None
}

/// `s` with line breaks flattened.
fn flatten_breaks_exec(s: &str) -> (r: String)
    ensures
        r@ == flatten_breaks(s@),
{
    let v = str_chars(s);
    let mut r = String::new();
    let mut i: usize = 0;
    while i < v.len()
        invariant
            i <= v@.len(),
            v@ == s@,
            r@ == flatten_breaks(v@.take(i as int)),
        decreases v.len() - i,
    {
        let c = v[i];
        assert(v@.take(i + 1).drop_last() =~= v@.take(i as int));
        if c == '\n' {
            string_push(&mut r, ' ');
        } else if c != '\r' {
            string_push(&mut r, c);
        }
        i += 1;
    }
    assert(v@.take(v@.len() as int) =~= v@);
    r
}

/// The document holding byte `pos` of the corpus, the position inside it,
/// and the text around a match of `pattern_len` bytes there.
pub fn resolve_position_with_context(
    position_map: &[DocSpan],
    text: &[u8],
    pos: usize,
    pattern_len: usize,
) -> (r: Option<SubstringHit>)
    requires
        window_ok(position_map@, text@.len() as int, pos as int, pattern_len as int),
    ensures
        match r {
            Some(h) => resolve_spec(position_map@, text@, pos as int, pattern_len as int) == Some(
                hit_view(h),
            ),
            None => resolve_spec(position_map@, text@, pos as int, pattern_len as int) is None,
        },
{
    let i = match find_span(position_map, pos) {
        Some(i) => i,
        None => {
            return None;
        },
    };
    let d = &position_map[i];
    let local_pos = pos - d.start;
    let ctx_start = if pos >= 60 {
        pos - 60
    } else {
        0
    };
    let e = pos.saturating_add(pattern_len).saturating_add(60);
    let mut ctx_end = if e < d.end {
        e
    } else {
        d.end
    };
    if text.len() < ctx_end {
        ctx_end = text.len();
    }
    assert((ctx_start as int, ctx_end as int) == context_window(
        position_map@[i as int],
        text@.len() as int,
        pos as int,
        pattern_len as int,
    ));
    let raw = lossy_string(&text[ctx_start..ctx_end]);
    let ctx = flatten_breaks_exec(raw.as_str());
    let mut context = String::new();
    proof {
        reveal_strlit("...");
    }
    if ctx_start > d.start {
        context.append("...");
    }
    context.append(ctx.as_str());
    if ctx_end < d.end {
        context.append("...");
    }
    let h = SubstringHit {
        source: d.source.clone(),
        title: d.title.clone(),
        position: local_pos,
        context,
    };
    Some(h)
}

/// Whether `seen` holds `key`.
fn has_seen(seen: &Vec<String>, key: &String) -> (b: bool)
    ensures
        b == exists|j: int| 0 <= j < seen@.len() && (#[trigger] seen@[j])@ == key@,
{
    let mut j: usize = 0;
    while j < seen.len()
        invariant
            j <= seen@.len(),
            forall|k: int| 0 <= k < j ==> (#[trigger] seen@[k])@ != key@,
        decreases seen.len() - j,
    {
        if seen[j] == *key {
            return true;
        }
        j += 1;
    }
    false
}

/// The hits for the matches at `positions`, in their order: one per
/// document (a second match in the same document is skipped), at most
/// `limit`.
pub fn collect_hits(
    position_map: &[DocSpan],
    text: &[u8],
    positions: &[usize],
    pattern_len: usize,
    limit: usize,
) -> (r: Vec<SubstringHit>)
    requires
        forall|k: int|
            0 <= k < positions@.len() ==> window_ok(
                position_map@,
                text@.len() as int,
                #[trigger] positions@[k] as int,
                pattern_len as int,
            ),
    ensures
        hit_views(r@) == gather(position_map@, text@, positions@, pattern_len as int, limit as int),
{
    let mut hits: Vec<SubstringHit> = Vec::new();
    let mut seen: Vec<String> = Vec::new();
    let mut i: usize = 0;
    while i < positions.len()
        invariant
            i <= positions@.len(),
            forall|k: int|
                0 <= k < positions@.len() ==> window_ok(
                    position_map@,
                    text@.len() as int,
                    #[trigger] positions@[k] as int,
                    pattern_len as int,
                ),
            hit_views(hits@) == gather(
                position_map@,
                text@,
                positions@.take(i as int),
                pattern_len as int,
                limit as int,
            ),
            seen@.len() == hits@.len(),
            forall|k: int|
                0 <= k < seen@.len() ==> (#[trigger] seen@[k])@ == hit_key(hit_view(hits@[k])),
        decreases positions.len() - i,
    {
        let ghost prev = hit_views(hits@);
        assert(positions@.take(i + 1).drop_last() =~= positions@.take(i as int));
        if hits.len() < limit {
            if let Some(hit) = resolve_position_with_context(
                position_map,
                text,
                positions[i],
                pattern_len,
            ) {
                let mut key = hit.source.clone();
                key.append(":");
                key.append(hit.title.as_str());
                proof {
                    reveal_strlit(":");
                }
                let dup = has_seen(&seen, &key);
                proof {
                    assert(key@ == hit_key(hit_view(hit)));
                    if dup {
                        let j = choose|j: int| 0 <= j < seen@.len() && (#[trigger] seen@[j])@
                            == key@;
                        assert(hit_key(prev[j]) == key@);
                    } else {
                        assert forall|j: int| 0 <= j < prev.len() implies hit_key(#[trigger] prev[j])
                            != key@ by {
                            assert(seen@[j]@ == hit_key(hit_view(hits@[j])));
                        }
                    }
                }
                if !dup {
                    seen.push(key);
                    hits.push(hit);
                    assert(hit_views(hits@) =~= prev.push(hit_view(hit)));
                }
            }
        }
        i += 1;
    }
    assert(positions@.take(positions@.len() as int) =~= positions@);
    hits
}

// ── The index ────────────────────────────────────────────────────────

struct LoadedIndex {
    index: FmIndex,
    text: Vec<u8>,
    position_map: Vec<DocSpan>,
}

/// FM-index over all ingested text, held in memory once built or loaded.
pub struct SubstringIndex {
    loaded: Option<LoadedIndex>,
}

impl SubstringIndex {
    #[verifier::type_invariant]
    spec fn inv(self) -> bool {
        self.loaded matches Some(l) ==> fm_text(l.index) == l.text@
    }

    /// The corpus and its spans, once built or loaded.
    pub closed spec fn contents(self) -> Option<(Seq<u8>, Seq<DocSpan>)> {
        match self.loaded {
            Some(l) => Some((l.text@, l.position_map@)),
            None => None,
        }
    }

    /// An index with nothing loaded yet.
    pub fn open() -> (r: SubstringIndex)
        ensures
            r.contents() is None,
    {
        SubstringIndex { loaded: None }
    }

    /// Whether an index is in memory.
    pub fn is_loaded(&self) -> (b: bool)
        ensures
            b == self.contents() is Some,
    {
        self.loaded.is_some()
    }

    /// The corpus and its spans, to be saved for a later `load`.
    pub fn saved_data(&self) -> (r: Option<(&Vec<u8>, &Vec<DocSpan>)>)
        ensures
            match self.contents() {
                Some((t, m)) => r matches Some((rt, rm)) && rt@ == t && rm@ == m,
                None => r is None,
            },
    {
        match &self.loaded {
            Some(l) => Some((&l.text, &l.position_map)),
            None => None,
        }
    }

    /// Builds the index over `(source, title, text)` documents: each text,
    /// with zero bytes made spaces, followed by a separator, the last one a
    /// terminating zero. No documents leave nothing loaded.
    pub fn build(&mut self, documents: &[(&str, &str, &str)]) -> (r: Result<BuildMetrics, Error>)
        ensures
            r matches Ok(m) && m.documents == documents@.len() && m.text_bytes == corpus(
                doc_texts(documents@),
            ).len(),
            documents@.len() == 0 ==> (final(self).contents() is None && (r matches Ok(m)
                && m.index_bytes == 0 && m.build_time_ms == 0)),
            documents@.len() > 0 ==> (final(self).contents() matches Some((t, map)) && t
                == terminated(corpus(doc_texts(documents@))) && map.len() == documents@.len()
                && forall|i: int|
                0 <= i < map.len() ==> span_view(#[trigger] map[i]) == span_of(documents@, i)),
    {
        let timer = clock_now();
        let n = documents.len();
        let ghost texts = doc_texts(documents@);
        let mut concatenated: Vec<u8> = Vec::new();
        let mut position_map: Vec<DocSpan> = Vec::new();
        let mut i: usize = 0;
        while i < n
            invariant
                n == documents@.len(),
                texts == doc_texts(documents@),
                i <= n,
                concatenated@ == corpus(texts.take(i as int)),
                position_map@.len() == i,
                forall|k: int|
                    0 <= k < i ==> span_view(#[trigger] position_map@[k]) == span_of(
                        documents@,
                        k,
                    ),
            decreases n - i,
        {
            let (source, title, text) = documents[i];
            let start_pos = concatenated.len();
            let bytes = text.as_bytes();
            let mut j: usize = 0;
            while j < bytes.len()
                invariant
                    j <= bytes@.len(),
                    bytes@ == texts[i as int],
                    i < n,
                    texts == doc_texts(documents@),
                    n == documents@.len(),
                    start_pos == corpus(texts.take(i as int)).len(),
                    concatenated@ == corpus(texts.take(i as int)) + clean_bytes(
                        bytes@.take(j as int),
                    ),
                decreases bytes.len() - j,
            {
                let b = bytes[j];
                concatenated.push(
                    if b == 0 {
                        32
                    } else {
                        b
                    },
                );
                assert(clean_bytes(bytes@.take(j + 1)) =~= clean_bytes(bytes@.take(j as int)).push(
                    if b == 0 {
                        32u8
                    } else {
                        b
                    },
                ));
                j += 1;
            }
            assert(bytes@.take(bytes@.len() as int) =~= bytes@);
            let end_pos = concatenated.len();
            let ghost before = position_map@;
            position_map.push(
                DocSpan {
                    source: String::from_str(source),
                    title: String::from_str(title),
                    start: start_pos,
                    end: end_pos,
                },
            );
            concatenated.push(1);
            proof {
                lemma_corpus_step(texts, i as int);
                assert(concatenated@ =~= corpus(texts.take(i + 1)));
                assert forall|k: int| 0 <= k < i + 1 implies span_view(
                    #[trigger] position_map@[k],
                ) == span_of(documents@, k) by {
                    if k < i {
                        assert(position_map@[k] == before[k]);
                    }
                }
            }
            i += 1;
        }
        assert(texts.take(n as int) =~= texts);
        if concatenated.len() == 0 {
            self.loaded = None;
            return Ok(BuildMetrics { documents: 0, text_bytes: 0, index_bytes: 0, build_time_ms: 0 });
        }
        let last = concatenated.len() - 1;
        concatenated.set(last, 0);
        proof {
            lemma_corpus_nonzero(texts);
            assert(concatenated@ == terminated(corpus(texts)));
        }
        let text_bytes = concatenated.len();
        let level = sampling_for(text_bytes);
        let copy = concatenated.clone();
        assert(copy@ =~= concatenated@);
        let index = match fm_build(copy, level) {
            Ok(ix) => ix,
            Err(e) => {
                let mut m = String::from_str("FM-index build: ");
                m.append(e.as_str());
                return Err(Error::Storage(m));
            },
        };
        let index_bytes = fm_heap_size(&index);
        let elapsed = clock_elapsed(&timer);
        let build_time_ms = duration_millis(&elapsed) as u64;
        self.loaded = Some(LoadedIndex { index, text: concatenated, position_map });
        Ok(BuildMetrics { documents: n, text_bytes, index_bytes, build_time_ms })
    }

    /// Loads a saved corpus and its spans, rebuilding the index over it. A
    /// corpus that holds a zero byte before its end, or that has two or more
    /// bytes and does not end in one, is refused; an empty corpus is taken.
    pub fn load(&mut self, text: Vec<u8>, position_map: Vec<DocSpan>) -> (r: Result<(), Error>)
        ensures
            r is Ok <==> (zero_free_body(text@) && (text@.len() <= 1 || text@[text@.len() - 1]
                == 0)),
            r is Ok ==> final(self).contents() == Some((text@, position_map@)),
            r is Err ==> final(self).contents() == old(self).contents(),
            r matches Err(e) ==> e is Storage,
    {
        let n = text.len();
        let mut j: usize = 0;
        while j + 1 < n
            invariant
                n == text@.len(),
                j == 0 || j < n,
                forall|k: int| 0 <= k < j && k < n - 1 ==> #[trigger] text@[k] != 0,
            decreases n - j,
        {
            if text[j] == 0 {
                return Err(Error::Storage(
                    String::from_str("FM-index rebuild: invalid text: zero byte inside the text"),
                ));
            }
            j += 1;
        }
        let level = sampling_for(n);
        let copy = text.clone();
        assert(copy@ =~= text@);
        match fm_build(copy, level) {
            Ok(index) => {
                self.loaded = Some(LoadedIndex { index, text, position_map });
                Ok(())
            },
            Err(e) => {
                let mut m = String::from_str("FM-index rebuild: ");
                m.append(e.as_str());
                Err(Error::Storage(m))
            },
        }
    }

    /// Searches for an exact substring: up to `limit` hits, one per
    /// document, with context, taken from the first `10 * limit` matches.
    pub fn search(&self, pattern: &str, limit: usize) -> (r: Vec<SubstringHit>)
        requires
            limit <= usize::MAX / 10,
        ensures
            match self.contents() {
                None => r@.len() == 0,
                Some((text, map)) => hit_views(r@) == gather(
                    map,
                    text,
                    first_n(fm_positions(text, pattern.spec_bytes()), 10 * limit),
                    pattern.spec_bytes().len() as int,
                    limit as int,
                ) && (terminated_text(text) && plain_pattern(pattern.spec_bytes()) ==> forall|k: int|
                    0 <= k < first_n(fm_positions(text, pattern.spec_bytes()), 10 * limit).len()
                        ==> occurs_at(
                        text,
                        pattern.spec_bytes(),
                        #[trigger] first_n(fm_positions(text, pattern.spec_bytes()), 10 * limit)[k] as int,
                    )),
            },
    {
        proof {
            use_type_invariant(self);
        }
        match &self.loaded {
            None => Vec::new(),
            Some(l) => {
                let pat = pattern.as_bytes();
                let ps = fm_locate(&l.index, pat, limit * 10);
                proof {
                    assert forall|k: int| 0 <= k < ps@.len() implies window_ok(
                        l.position_map@,
                        l.text@.len() as int,
                        #[trigger] ps@[k] as int,
                        pat@.len() as int,
                    ) by {
                        let p = ps@[k] as int;
                        if let Some(i) = first_span(l.position_map@, p) {
                            assert(is_first_span(l.position_map@, p, i));
                        }
                    }
                }
                collect_hits(l.position_map.as_slice(), l.text.as_slice(), ps.as_slice(), pat.len(), limit)
            },
        }
    }

    /// The number of occurrences of `pattern`.
    pub fn count(&self, pattern: &str) -> (r: usize)
        ensures
            match self.contents() {
                None => r == 0,
                Some((text, _)) => r == fm_positions(text, pattern.spec_bytes()).len() && (
                terminated_text(text) && plain_pattern(pattern.spec_bytes()) ==> r
                    == occurrence_count(text, pattern.spec_bytes())),
            },
    {
        proof {
            use_type_invariant(self);
        }
        match &self.loaded {
            None => 0,
            Some(l) => fm_count(&l.index, pattern.as_bytes()),
        }
    }
}

} // verus!
