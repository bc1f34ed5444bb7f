//! Browser history: entries read from Chrome/Firefox databases, and the
//! Wikipedia articles their URLs point to.
use vstd::prelude::*;
use uuid::Uuid;
use crate::facts::{wiki_entity_id, wiki_id};
use crate::sources::{hash_text, text_hash};
use crate::text::{
    before_char, dec_digits, find, find_char_in, lemma_find, line_ranges, lines, occurs_at,
    find_exec, pieces, push_decimal, replace_char, starts_with, starts_with_exec, str_chars,
    string_from_range, zero_pad,
};
use crate::types::{new_id, now_rfc3339, ContentType, Document, PrivacyLevel};

verus! {

/// A parsed browser history entry.
#[derive(Debug, Clone)]
pub struct HistoryEntry {
    pub url: String,
    pub title: String,
    pub visit_count: i64,
    pub last_visit: String,
}

/// The second piece of `s` split at `sep` (`s.split(sep).nth(1)`).
pub open spec fn second_piece(s: Seq<char>, sep: Seq<char>) -> Option<Seq<char>> {
    match find(s, sep) {
        Some(i) => {
            let rest = s.subrange(i + sep.len(), s.len() as int);
            match find(rest, sep) {
                Some(j) => Some(rest.subrange(0, j)),
                None => Some(rest),
            }
        },
        None => None,
    }
}

/// The article a Wikipedia URL names: the path after `/wiki/`, with `_` read
/// as a space and any `#fragment` dropped. Empty paths and `Special:` or
/// `File:` pages name none.
pub open spec fn wikipedia_article(url: Seq<char>) -> Option<Seq<char>> {
    match second_piece(url, "/wiki/"@) {
        Some(path) => if path.len() == 0 || starts_with(path, "Special:"@) || starts_with(
            path,
            "File:"@,
        ) {
            None
        } else {
            Some(before_char(replace_char(path, '_', ' '), '#'))
        },
        None => None,
    }
}

fn sub_vec(t: &[char], from: usize, to: usize) -> (v: Vec<char>)
    requires
        from <= to <= t@.len(),
    ensures
        v@ == t@.subrange(from as int, to as int),
{
    let mut v: Vec<char> = Vec::new();
    let mut i = from;
    while i < to
        invariant
            from <= i <= to <= t@.len(),
            v@ == t@.subrange(from as int, i as int),
        decreases to - i,
    {
        v.push(t[i]);
        assert(t@.subrange(from as int, i + 1) =~= t@.subrange(from as int, i as int).push(
            t@[i as int],
        ));
        i += 1;
    }
    v
}

/// Extract the article name from a Wikipedia URL.
pub fn extract_wikipedia_article(url: &str) -> (res: Option<String>)
    ensures
        match res {
            Some(a) => wikipedia_article(url@) == Some(a@),
            None => wikipedia_article(url@) is None,
        },
{
    let u = str_chars(url);
    let sep = str_chars("/wiki/");
    let special = str_chars("Special:");
    let file = str_chars("File:");
    proof {
        reveal_strlit("/wiki/");
    }
    let i = match find_exec(u.as_slice(), sep.as_slice()) {
        Some(i) => i,
        None => {
            return None;
        },
    };
    proof {
        lemma_find(u@, sep@);
        assert(occurs_at(u@, sep@, i as int));
    }
    assert(sep@.len() == 6);
    let ulen = u.len();
    let start = i + sep.len();
    let rest = sub_vec(u.as_slice(), start, ulen);
    let end = match find_exec(rest.as_slice(), sep.as_slice()) {
        Some(j) => {
            proof {
                lemma_find(rest@, sep@);
            }
            j
        },
        None => rest.len(),
    };
    let path = sub_vec(rest.as_slice(), 0, end);
    proof {
        assert(second_piece(u@, sep@) == Some(path@)) by {
            if end == rest@.len() {
                assert(rest@.subrange(0, end as int) =~= rest@);
            }
        }
    }
    if path.len() == 0 || starts_with_exec(path.as_slice(), special.as_slice())
        || starts_with_exec(path.as_slice(), file.as_slice()) {
        return None;
    }
    let mut replaced: Vec<char> = Vec::new();
    let mut k: usize = 0;
    while k < path.len()
        invariant
            k <= path@.len(),
            replaced@ == replace_char(path@, '_', ' ').take(k as int),
        decreases path.len() - k,
    {
        let c = path[k];
        replaced.push(if c == '_' { ' ' } else { c });
        assert(replace_char(path@, '_', ' ').take(k + 1) =~= replace_char(path@, '_', ' ').take(
            k as int,
        ).push(if c == '_' { ' ' } else { c }));
        k += 1;
    }
    assert(replace_char(path@, '_', ' ').take(path@.len() as int) =~= replace_char(
        path@,
        '_',
        ' ',
    ));
    let cut = find_char_in(replaced.as_slice(), '#', 0, replaced.len());
    assert(replaced@.subrange(0, replaced@.len() as int) =~= replaced@);
    Some(string_from_range(replaced.as_slice(), 0, cut))
}

// ── Visits ───────────────────────────────────────────────────────────

/// The RFC 3339 text of the UTC time `secs` seconds after the Unix epoch, as
/// `chrono` writes it; `None` out of its range.
pub uninterp spec fn unix_rfc3339(secs: int) -> Option<Seq<char>>;

/// `chrono::DateTime::from_timestamp(secs, 0)`, written with `to_rfc3339`:
/// the named text of that instant.
#[verifier::external_body]
fn rfc3339_at(secs: i64) -> (r: Option<String>)
    ensures
        match r {
            Some(s) => unix_rfc3339(secs as int) == Some(s@),
            None => unix_rfc3339(secs as int) is None,
        },
{
    chrono::DateTime::from_timestamp(secs, 0).map(|dt| dt.to_rfc3339())
}

/// Microseconds from 1601-01-01 (the WebKit epoch) to the Unix epoch.
pub const WEBKIT_EPOCH_OFFSET_US: i64 = 11_644_473_600_000_000;

/// `a / b` rounded toward zero, as Rust divides integers.
pub open spec fn div_trunc(a: int, b: int) -> int {
    if a >= 0 {
        a / b
    } else {
        -((-a) / b)
    }
}

/// Whole seconds since the Unix epoch of a visit stamp: microseconds since
/// 1601 for Chrome, since 1970 for Firefox.
pub open spec fn visit_secs(timestamp: int, is_chrome: bool) -> int {
    if is_chrome {
        div_trunc(timestamp - WEBKIT_EPOCH_OFFSET_US, 1_000_000)
    } else {
        div_trunc(timestamp, 1_000_000)
    }
}

/// The text of a visit time: RFC 3339, or `unknown` out of range.
pub open spec fn visit_text(timestamp: int, is_chrome: bool) -> Seq<char> {
    match unix_rfc3339(visit_secs(timestamp, is_chrome)) {
        Some(t) => t,
        None => "unknown"@,
    }
}

/// Microseconds to whole seconds, rounded toward zero.
fn micros_to_secs(us: i64) -> (s: i64)
    ensures
        s == div_trunc(us as int, 1_000_000),
{
    if us >= 0 {
        us / 1_000_000
    } else {
        let pos = (-(us as i128)) as u64;
        let q = pos / 1_000_000;
        -(q as i64)
    }
}

/// The text of a visit stamp, as the history lists it. A Chrome stamp
/// below the Unix epoch offset by more than `i64` can hold is out of range
/// for the subtraction and not accepted.
pub fn visit_time(timestamp: i64, is_chrome: bool) -> (r: String)
    requires
        is_chrome ==> timestamp >= i64::MIN + WEBKIT_EPOCH_OFFSET_US,
    ensures
        r@ == visit_text(timestamp as int, is_chrome),
{
    let secs = if is_chrome {
        micros_to_secs(timestamp - WEBKIT_EPOCH_OFFSET_US)
    } else {
        micros_to_secs(timestamp)
    };
    match rfc3339_at(secs) {
        Some(t) => t,
        None => String::from_str("unknown"),
    }
}

// ── Documents ────────────────────────────────────────────────────────

/// The decimal text of a signed integer.
pub open spec fn int_text(v: int) -> Seq<char> {
    if v < 0 {
        "-"@ + dec_digits((-v) as nat)
    } else {
        dec_digits(v as nat)
    }
}

/// Appends the decimal text of `v`.
fn push_signed(s: &mut String, v: i64)
    ensures
        final(s)@ == old(s)@ + int_text(v as int),
{
    if v < 0 {
        s.append("-");
        let m = (-(v as i128)) as u64;
        push_decimal(s, m, 0);
        proof {
            reveal_strlit("-");
        }
    } else {
        push_decimal(s, v as u64, 0);
    }
    assert(zero_pad(dec_digits(if v < 0 { (-v) as nat } else { v as nat }), 0) == dec_digits(
        if v < 0 { (-v) as nat } else { v as nat },
    ));
}

/// The title shown for an entry: its title, or its URL when untitled.
pub open spec fn entry_title(e: HistoryEntry) -> Seq<char> {
    if e.title@.len() == 0 {
        e.url@
    } else {
        e.title@
    }
}

/// The text of a history document.
pub open spec fn entry_text(e: HistoryEntry) -> Seq<char> {
    "URL: "@ + e.url@ + "\nTitle: "@ + entry_title(e) + "\nVisits: "@ + int_text(e.visit_count as int)
        + "\nLast visit: "@ + e.last_visit@ + "\n"@
}

/// `url_` and the entry's index, six digits.
pub open spec fn entry_id(idx: int) -> Seq<char> {
    "url_"@ + zero_pad(dec_digits(idx as nat), 6)
}

/// One private record document per history entry, in order.
pub fn history_documents(entries: &[HistoryEntry], source_id: Uuid) -> (r: Vec<(Document, String)>)
    ensures
        r@.len() == entries@.len(),
        forall|i: int|
            0 <= i < r@.len() ==> {
                let (d, t) = #[trigger] r@[i];
                &&& t@ == entry_text(entries@[i])
                &&& d.external_id@ == entry_id(i)
                &&& d.title@ == entry_title(entries@[i])
                &&& d.source_id == source_id
                &&& d.parent_id is None
                &&& d.depth == 0
                &&& d.content_type == ContentType::Record
                &&& d.language is None
                &&& d.content_hash.0@ == text_hash(t@)
                &&& d.content_size == vstd::utf8::encode_utf8(t@).len()
                &&& d.privacy_level == PrivacyLevel::Private
            },
{
    let mut r: Vec<(Document, String)> = Vec::new();
    let mut idx: usize = 0;
    while idx < entries.len()
        invariant
            idx <= entries@.len(),
            r@.len() == idx,
            forall|i: int|
                0 <= i < idx ==> {
                    let (d, t) = #[trigger] r@[i];
                    &&& t@ == entry_text(entries@[i])
                    &&& d.external_id@ == entry_id(i)
                    &&& d.title@ == entry_title(entries@[i])
                    &&& d.source_id == source_id
                    &&& d.parent_id is None
                    &&& d.depth == 0
                    &&& d.content_type == ContentType::Record
                    &&& d.language is None
                    &&& d.content_hash.0@ == text_hash(t@)
                    &&& d.content_size == vstd::utf8::encode_utf8(t@).len()
                    &&& d.privacy_level == PrivacyLevel::Private
                },
        decreases entries.len() - idx,
    {
        let e = &entries[idx];
        let title = if e.title.as_str().is_empty() {
            e.url.clone()
        } else {
            e.title.clone()
        };
        let mut text = String::from_str("URL: ");
        text.append(e.url.as_str());
        text.append("\nTitle: ");
        text.append(title.as_str());
        text.append("\nVisits: ");
        push_signed(&mut text, e.visit_count);
        text.append("\nLast visit: ");
        text.append(e.last_visit.as_str());
        text.append("\n");
        let mut external_id = String::from_str("url_");
        push_decimal(&mut external_id, idx as u64, 6);
        proof {
            reveal_strlit("URL: ");
            reveal_strlit("\nTitle: ");
            reveal_strlit("\nVisits: ");
            reveal_strlit("\nLast visit: ");
            reveal_strlit("\n");
            reveal_strlit("url_");
        }
        let doc = Document {
            id: new_id(),
            source_id,
            external_id,
            parent_id: None,
            depth: 0,
            title,
            content_type: ContentType::Record,
            language: None,
            content_hash: hash_text(text.as_str()),
            content_size: text.as_str().as_bytes().len() as u64,
            created_at: now_rfc3339(),
            indexed_at: now_rfc3339(),
            privacy_level: PrivacyLevel::Private,
        };
        r.push((doc, text));
        idx += 1;
    }
    r
}

// ── Entities ─────────────────────────────────────────────────────────

/// The URL on a line that starts with `URL: `.
pub open spec fn url_of_line(line: Seq<char>) -> Option<Seq<char>> {
    if starts_with(line, "URL: "@) {
        Some(line.subrange(5, line.len() as int))
    } else {
        None
    }
}

/// The entity of a line: the Wikipedia article its URL names, with its id.
pub open spec fn line_entity(line: Seq<char>) -> Option<(Seq<char>, Seq<char>)> {
    match url_of_line(line) {
        Some(u) => match wikipedia_article(u) {
            Some(a) => Some((wiki_entity_id(a), a)),
            None => None,
        },
        None => None,
    }
}

/// The entities named by the lines `ls`, in order.
pub open spec fn lines_entities(ls: Seq<Seq<char>>) -> Seq<(Seq<char>, Seq<char>)>
    decreases ls.len(),
{
    if ls.len() == 0 {
        seq![]
    } else {
        let prev = lines_entities(ls.drop_last());
        match line_entity(ls.last()) {
            Some(e) => prev.push(e),
            None => prev,
        }
    }
}

/// The entities named by the texts of the first `n` documents, in order.
pub open spec fn docs_entities(docs: Seq<(Document, String)>, n: int) -> Seq<(Seq<char>, Seq<char>)>
    decreases n,
{
    if n <= 0 {
        seq![]
    } else {
        docs_entities(docs, n - 1) + lines_entities(lines(docs[n - 1].1@))
    }
}

/// The views of entity pairs.
pub open spec fn pairs_view(v: Seq<(String, String)>) -> Seq<(Seq<char>, Seq<char>)> {
    v.map_values(|p: (String, String)| (p.0@, p.1@))
}

/// The entity of a line, if it names a Wikipedia article.
fn entity_of_line(v: &[char], a: usize, b: usize) -> (r: Option<(String, String)>)
    requires
        a <= b <= v@.len(),
    ensures
        match line_entity(v@.subrange(a as int, b as int)) {
            Some(e) => r matches Some(p) && (p.0@, p.1@) == e,
            None => r is None,
        },
{
    let line = &v[a..b];
    let prefix = str_chars("URL: ");
    proof {
        reveal_strlit("URL: ");
    }
    if !starts_with_exec(line, prefix.as_slice()) {
        return None;
    }
    let url = string_from_range(v, a + 5, b);
    assert(url@ == v@.subrange(a as int, b as int).subrange(5, b - a));
    match extract_wikipedia_article(url.as_str()) {
        Some(article) => {
            let id = wiki_id(article.as_str());
            Some((id, article))
        },
        None => None,
    }
}

/// The Wikipedia articles linked from history documents, with their entity
/// ids, in order of appearance.
pub fn extract_url_entities(entries: &[(Document, String)]) -> (r: Vec<(String, String)>)
    ensures
        pairs_view(r@) == docs_entities(entries@, entries@.len() as int),
{
    let mut out: Vec<(String, String)> = Vec::new();
    let mut i: usize = 0;
    while i < entries.len()
        invariant
            i <= entries@.len(),
            pairs_view(out@) == docs_entities(entries@, i as int),
        decreases entries.len() - i,
    {
        let v = str_chars(entries[i].1.as_str());
        let ranges = line_ranges(v.as_slice());
        let ghost ls = lines(entries@[i as int].1@);
        let ghost base = pairs_view(out@);
        let mut k: usize = 0;
        while k < ranges.len()
            invariant
                k <= ranges@.len(),
                pieces(v@, ranges@) == ls,
                forall|j: int|
                    0 <= j < ranges@.len() ==> (#[trigger] ranges@[j]).0 <= ranges@[j].1 <= v@.len(),
                pairs_view(out@) == base + lines_entities(ls.take(k as int)),
            decreases ranges.len() - k,
        {
            let (a, b) = ranges[k];
            assert(ls[k as int] == v@.subrange(a as int, b as int));
            assert(ls.take(k + 1).drop_last() =~= ls.take(k as int));
            let ghost before = out@;
            if let Some(p) = entity_of_line(v.as_slice(), a, b) {
                out.push(p);
                assert(pairs_view(out@) =~= pairs_view(before).push((p.0@, p.1@)));
            }
            k += 1;
        }
        assert(ls.take(ranges@.len() as int) =~= ls);
        i += 1;
    }
    out
}

// ── Laws ─────────────────────────────────────────────────────────────

proof fn lemma_prefix_survives_underscores(path: Seq<char>, a: Seq<char>, pat: Seq<char>)
    requires
        a == before_char(replace_char(path, '_', ' '), '#'),
        starts_with(a, pat),
        forall|i: int| 0 <= i < pat.len() ==> pat[i] != ' ',
    ensures
        starts_with(path, pat),
{
    let r = replace_char(path, '_', ' ');
    crate::text::lemma_before_char_free(r, '#');
    assert forall|i: int| 0 <= i < pat.len() implies path[i] == pat[i] by {
        assert(a.subrange(0, pat.len() as int)[i] == a[i]);
        assert(a[i] == r[i]);
    }
    assert(path.subrange(0, pat.len() as int) =~= pat);
}

proof fn lemma_page_prefixes_have_no_space()
    ensures
        forall|i: int| 0 <= i < "File:"@.len() ==> "File:"@[i] != ' ',
        forall|i: int| 0 <= i < "Special:"@.len() ==> "Special:"@[i] != ' ',
{
    reveal_strlit("File:");
    reveal_strlit("Special:");
}

/// Only articles are named: a `File:` or `Special:` page gives no article,
/// whichever way it is reached, and no name given has an underscore or a
/// `#` left in it.
pub proof fn lemma_wikipedia_article_skips_files_and_special_pages(url: Seq<char>)
    ensures
        second_piece(url, "/wiki/"@) matches Some(path) && (starts_with(path, "File:"@) || starts_with(
            path,
            "Special:"@,
        )) ==> wikipedia_article(url) is None,
        wikipedia_article(url) matches Some(a) ==> !starts_with(a, "File:"@) && !starts_with(
            a,
            "Special:"@,
        ) && forall|i: int| 0 <= i < a.len() ==> #[trigger] a[i] != '_' && a[i] != '#',
{
    lemma_page_prefixes_have_no_space();
    if let Some(path) = second_piece(url, "/wiki/"@) {
        if let Some(a) = wikipedia_article(url) {
            let r = replace_char(path, '_', ' ');
            crate::text::lemma_before_char_free(r, '#');
            if starts_with(a, "File:"@) {
                lemma_prefix_survives_underscores(path, a, "File:"@);
            }
            if starts_with(a, "Special:"@) {
                lemma_prefix_survives_underscores(path, a, "Special:"@);
            }
            assert forall|i: int| 0 <= i < a.len() implies #[trigger] a[i] != '_' && a[i] != '#' by {
                assert(a[i] == r[i]);
            }
        }
    }
}

} // verus!
