//! EPUB books: chapter order from the OPF spine, titles, and the chapter
//! documents.
//!
//! The archive's entries are read here through the zip crate; the program
//! converts their HTML to Markdown before the chapters are made.
use vstd::prelude::*;
use std::io::{Cursor, Read};
use uuid::Uuid;
use zip::ZipArchive;
use crate::error::Error;
use crate::sources::{hash_text, text_hash, texts};
use crate::text::{
    contains, contains_exec, ends_with, ends_with_exec, find, find_char, find_char_in, find_exec,
    lemma_find, lemma_find_char_at, lines, line_ranges, pieces, push_decimal, starts_with,
    str_chars, string_from_range, trim, trim_range, dec_digits, zero_pad,
};
use crate::types::{blake3_digest, new_id, now_rfc3339, ContentHash, ContentType, Document, PrivacyLevel};

verus! {

// ── Attributes and titles ────────────────────────────────────────────

/// The value of `attr="..."` in `tag`: the text after the first `attr="` up
/// to the next `"`.
#[verifier::opaque]
pub open spec fn attr_value(tag: Seq<char>, attr: Seq<char>) -> Option<Seq<char>> {
    let pat = attr + seq!['=', '"'];
    match find(tag, pat) {
        Some(p) => {
            let start = p + pat.len();
            let rest = tag.subrange(start, tag.len() as int);
            match find_char(rest, '"') {
                Some(e) => Some(rest.subrange(0, e)),
                None => None,
            }
        },
        None => None,
    }
}

/// Reads the value of an attribute from a tag's text.
pub fn extract_attr(tag: &str, attr: &str) -> (r: Option<String>)
    ensures
        match attr_value(tag@, attr@) {
            Some(v) => r matches Some(s) && s@ == v,
            None => r is None,
        },
{
    reveal(attr_value);
    let t = str_chars(tag);
    let mut pat = str_chars(attr);
    pat.push('=');
    pat.push('"');
    assert(pat@ =~= attr@ + seq!['=', '"']);
    let p = match find_exec(t.as_slice(), pat.as_slice()) {
        Some(p) => p,
        None => {
            return None;
        },
    };
    proof {
        lemma_find(t@, pat@);
    }
    let tlen = t.len();
    let start = p + pat.len();
    let e = find_char_in(t.as_slice(), '"', start, tlen);
    proof {
        let rest = t@.subrange(start as int, t@.len() as int);
        lemma_find_char_at(rest, '"', e - start);
        assert forall|j: int| 0 <= j < e - start implies rest[j] != '"' by {
            assert(rest[j] == t@[start + j]);
        }
        assert(rest.subrange(0, e - start) =~= t@.subrange(start as int, e as int));
    }
    if e == tlen {
        return None;
    }
    Some(string_from_range(t.as_slice(), start, e))
}

/// The book title in an OPF document: the trimmed text of the first
/// `<dc:title ...>` element, if not blank.
pub open spec fn opf_title(opf: Seq<char>) -> Option<Seq<char>> {
    match find(opf, "<dc:title"@) {
        Some(s) => match find_char(opf.subrange(s, opf.len() as int), '>') {
            Some(g) => {
                let after = s + g + 1;
                match find_char(opf.subrange(after, opf.len() as int), '<') {
                    Some(l) => {
                        let t = trim(opf.subrange(after, after + l));
                        if t.len() > 0 {
                            Some(t)
                        } else {
                            None
                        }
                    },
                    None => None,
                }
            },
            None => None,
        },
        None => None,
    }
}

#[verifier::spinoff_prover]
#[verifier::rlimit(40)]
fn char_pos(v: &[char], c: char, from: usize) -> (r: Option<usize>)
    requires
        from <= v@.len(),
    ensures
        match find_char(v@.subrange(from as int, v@.len() as int), c) {
            Some(k) => r matches Some(p) && p == from + k,
            None => r is None,
        },
        r matches Some(p) ==> from <= p < v@.len(),
{
    let len = v.len();
    let k = find_char_in(v, c, from, len);
    proof {
        let rest = v@.subrange(from as int, len as int);
        lemma_find_char_at(rest, c, k - from);
        assert forall|j: int| 0 <= j < k - from implies rest[j] != c by {
            assert(rest[j] == v@[from + j]);
        }
    }
    if k == len {
        None
    } else {
        Some(k)
    }
}

/// Reads the book title from an OPF document.
#[verifier::rlimit(60)]
pub fn parse_title(opf: &str) -> (r: Option<String>)
    ensures
        match opf_title(opf@) {
            Some(t) => r matches Some(s) && s@ == t,
            None => r is None,
        },
{
    let v = str_chars(opf);
    let tag = str_chars("<dc:title");
    proof {
        reveal_strlit("<dc:title");
    }
    let s = match find_exec(v.as_slice(), tag.as_slice()) {
        Some(s) => s,
        None => {
            return None;
        },
    };
    proof {
        lemma_find(v@, tag@);
    }
    assert(find(opf@, "<dc:title"@) == Some(s as int));
    let vlen = v.len();
    let g = match char_pos(v.as_slice(), '>', s) {
        Some(g) => g,
        None => {
            return None;
        },
    };
    let after = g + 1;
    let ghost grel = g - s;
    assert(find_char(opf@.subrange(s as int, opf@.len() as int), '>') == Some(grel));
    assert(after == s + grel + 1);
    let l = match char_pos(v.as_slice(), '<', after) {
        Some(l) => l,
        None => {
            assert(find_char(opf@.subrange(after as int, opf@.len() as int), '<') is None);
            assert(opf_title(opf@) is None);
            return None;
        },
    };
    let ghost lrel = l - after;
    assert(find_char(opf@.subrange(after as int, opf@.len() as int), '<') == Some(lrel));
    let (a, b) = trim_range(v.as_slice(), after, l);
    assert(opf@.subrange(after as int, after + lrel) == v@.subrange(after as int, l as int));
    assert(opf_title(opf@) == (if trim(opf@.subrange(after as int, after + lrel)).len() > 0 {
        Some(trim(opf@.subrange(after as int, after + lrel)))
    } else {
        None
    }));
    if a == b {
        return None;
    }
    Some(string_from_range(v.as_slice(), a, b))
}

/// The title of a chapter: the first `# ` heading line with text after it.
pub open spec fn chapter_heading(ls: Seq<Seq<char>>) -> Option<Seq<char>>
    decreases ls.len(),
{
    if ls.len() == 0 {
        None
    } else {
        let t = trim(ls[0]);
        if starts_with(t, "# "@) && t.len() > 2 {
            Some(t.subrange(2, t.len() as int))
        } else {
            chapter_heading(ls.drop_first())
        }
    }
}

fn chapter_heading_from(v: &[char], ranges: &Vec<(usize, usize)>, from: usize) -> (r: Option<(usize, usize)>)
    requires
        from <= ranges@.len(),
        forall|i: int| 0 <= i < ranges@.len() ==> (#[trigger] ranges@[i]).0 <= ranges@[i].1 <= v@.len(),
    ensures
        match chapter_heading(pieces(v@, ranges@).subrange(from as int, ranges@.len() as int)) {
            Some(h) => r matches Some((a, b)) && a <= b <= v@.len() && v@.subrange(a as int, b as int) == h,
            None => r is None,
        },
    decreases ranges@.len() - from,
{
    let ghost rest = pieces(v@, ranges@).subrange(from as int, ranges@.len() as int);
    if from == ranges.len() {
        return None;
    }
    let (a, b) = ranges[from];
    assert(rest[0] == v@.subrange(a as int, b as int));
    assert(rest.drop_first() =~= pieces(v@, ranges@).subrange(from + 1, ranges@.len() as int));
    let (ta, tb) = trim_range(v, a, b);
    let ghost t = v@.subrange(ta as int, tb as int);
    let hit = tb - ta > 2 && v[ta] == '#' && v[ta + 1] == ' ';
    proof {
        reveal_strlit("# ");
        let p = "# "@;
        if t.len() >= 2 {
            if t[0] == '#' && t[1] == ' ' {
                assert(t.subrange(0, 2) =~= p);
            }
            if starts_with(t, p) {
                assert(t.subrange(0, 2)[0] == t[0]);
                assert(t.subrange(0, 2)[1] == t[1]);
            }
        }
        if t.len() >= 2 {
            assert(t.subrange(2, t.len() as int) =~= v@.subrange(ta + 2, tb as int));
        }
    }
    if hit {
        return Some((ta + 2, tb));
    }
    chapter_heading_from(v, ranges, from + 1)
}

/// The title of a chapter's Markdown.
pub fn extract_chapter_title(markdown: &str) -> (r: Option<String>)
    ensures
        match chapter_heading(lines(markdown@)) {
            Some(h) => r matches Some(s) && s@ == h,
            None => r is None,
        },
{
    let v = str_chars(markdown);
    let ranges = line_ranges(v.as_slice());
    assert(pieces(v@, ranges@).subrange(0, ranges@.len() as int) =~= pieces(v@, ranges@));
    match chapter_heading_from(v.as_slice(), &ranges, 0) {
        Some((a, b)) => Some(string_from_range(v.as_slice(), a, b)),
        None => None,
    }
}

// ── Spine ────────────────────────────────────────────────────────────

/// The `(id, path)` of a manifest item line: an `<item` of an XHTML media
/// type with both attributes; the path is relative to the OPF's directory.
pub open spec fn manifest_item(line: Seq<char>, dir: Seq<char>) -> Option<(Seq<char>, Seq<char>)> {
    let t = trim(line);
    if contains(t, "<item"@) && contains(t, "application/xhtml"@) {
        match (attr_value(t, "id"@), attr_value(t, "href"@)) {
            (Some(id), Some(href)) => Some(
                (id, if dir.len() == 0 { href } else { dir + seq!['/'] + href }),
            ),
            _ => None,
        }
    } else {
        None
    }
}

/// The manifest items of the first `n` lines, in order.
pub open spec fn manifest_items(ls: Seq<Seq<char>>, dir: Seq<char>, n: int) -> Seq<(Seq<char>, Seq<char>)>
    decreases n,
{
    if n <= 0 {
        seq![]
    } else {
        manifest_items(ls, dir, n - 1) + match manifest_item(ls[n - 1], dir) {
            Some(it) => seq![it],
            None => seq![],
        }
    }
}

/// The path of the last item with id `id`.
pub open spec fn item_path(items: Seq<(Seq<char>, Seq<char>)>, id: Seq<char>) -> Option<Seq<char>>
    decreases items.len(),
{
    if items.len() == 0 {
        None
    } else if items.last().0 == id {
        Some(items.last().1)
    } else {
        item_path(items.drop_last(), id)
    }
}

/// The chapter paths named by the `<itemref idref="...">` lines among the
/// first `n`, through the manifest `items`.
pub open spec fn spine_paths(ls: Seq<Seq<char>>, items: Seq<(Seq<char>, Seq<char>)>, n: int) -> Seq<Seq<char>>
    decreases n,
{
    if n <= 0 {
        seq![]
    } else {
        let t = trim(ls[n - 1]);
        spine_paths(ls, items, n - 1) + if contains(t, "<itemref"@) {
            match attr_value(t, "idref"@) {
                Some(idref) => match item_path(items, idref) {
                    Some(p) => seq![p],
                    None => seq![],
                },
                None => seq![],
            }
        } else {
            seq![]
        }
    }
}

/// The chapter order an OPF document's spine gives, if it names any chapter.
pub open spec fn spine_order(dir: Seq<char>, opf: Seq<char>) -> Option<Seq<Seq<char>>> {
    let ls = lines(opf);
    let items = manifest_items(ls, dir, ls.len() as int);
    let paths = spine_paths(ls, items, ls.len() as int);
    if paths.len() == 0 {
        None
    } else {
        Some(paths)
    }
}

fn item_path_exec(items: &Vec<(String, String)>, id: &String) -> (r: Option<String>)
    ensures
        match item_path(items@.map_values(|p: (String, String)| (p.0@, p.1@)), id@) {
            Some(p) => r matches Some(s) && s@ == p,
            None => r is None,
        },
{
    let ghost all = items@.map_values(|p: (String, String)| (p.0@, p.1@));
    let mut n = items.len();
    assert(all.take(n as int) =~= all);
    while n > 0
        invariant
            n <= items@.len(),
            all == items@.map_values(|p: (String, String)| (p.0@, p.1@)),
            item_path(all, id@) == item_path(all.take(n as int), id@),
        decreases n,
    {
        assert(all.take(n as int).last() == (items@[n - 1].0@, items@[n - 1].1@));
        assert(all.take(n as int).drop_last() =~= all.take(n - 1));
        if items[n - 1].0 == *id {
            return Some(items[n - 1].1.clone());
        }
        n -= 1;
    }
    None
}

/// The manifest item of one line, if it is one.
fn manifest_line(line: &[char], dir: &str) -> (r: Option<(String, String)>)
    ensures
        match manifest_item(line@, dir@) {
            Some((id, path)) => r matches Some((a, b)) && a@ == id && b@ == path,
            None => r is None,
        },
{
    let (ta, tb) = trim_range(line, 0, line.len());
    assert(line@.subrange(0, line@.len() as int) =~= line@);
    let tv = &line[ta..tb];
    assert(tv@ == trim(line@));
    let t = string_from_range(line, ta, tb);
    let item_pat = str_chars("<item");
    let xhtml_pat = str_chars("application/xhtml");
    proof {
        reveal_strlit("<item");
        reveal_strlit("application/xhtml");
        reveal_strlit("id");
        reveal_strlit("href");
    }
    if !(contains_exec(tv, item_pat.as_slice()) && contains_exec(tv, xhtml_pat.as_slice())) {
        return None;
    }
    let id = extract_attr(t.as_str(), "id");
    let href = extract_attr(t.as_str(), "href");
    match (id, href) {
        (Some(id), Some(href)) => {
            let full = if dir.is_empty() {
                href
            } else {
                let mut f = String::from_str(dir);
                crate::text::string_push(&mut f, '/');
                f.append(href.as_str());
                f
            };
            Some((id, full))
        },
        _ => None,
    }
}

/// The spine path one line contributes, if any.
fn spine_line(line: &[char], items: &Vec<(String, String)>) -> (r: Option<String>)
    ensures
        ({
            let t = trim(line@);
            let all = items@.map_values(|p: (String, String)| (p.0@, p.1@));
            if contains(t, "<itemref"@) {
                match attr_value(t, "idref"@) {
                    Some(idref) => match item_path(all, idref) {
                        Some(p) => r matches Some(s) && s@ == p,
                        None => r is None,
                    },
                    None => r is None,
                }
            } else {
                r is None
            }
        }),
{
    let (ta, tb) = trim_range(line, 0, line.len());
    assert(line@.subrange(0, line@.len() as int) =~= line@);
    let tv = &line[ta..tb];
    assert(tv@ == trim(line@));
    let t = string_from_range(line, ta, tb);
    let ref_pat = str_chars("<itemref");
    proof {
        reveal_strlit("<itemref");
        reveal_strlit("idref");
    }
    if !contains_exec(tv, ref_pat.as_slice()) {
        return None;
    }
    match extract_attr(t.as_str(), "idref") {
        Some(idref) => item_path_exec(items, &idref),
        None => None,
    }
}

/// Reads the chapter order from an OPF document in directory `opf_dir`.
pub fn parse_spine_order(opf_dir: &str, opf_content: &str) -> (r: Option<Vec<String>>)
    ensures
        match spine_order(opf_dir@, opf_content@) {
            Some(ps) => r matches Some(v) && texts(v@) == ps,
            None => r is None,
        },
{
    let v = str_chars(opf_content);
    let ranges = line_ranges(v.as_slice());
    let ghost ls = lines(v@);
    let mut items: Vec<(String, String)> = Vec::new();
    let mut k: usize = 0;
    while k < ranges.len()
        invariant
            v@ == opf_content@,
            pieces(v@, ranges@) == ls,
            ls == lines(opf_content@),
            k <= ranges@.len(),
            forall|i: int| 0 <= i < ranges@.len() ==> (#[trigger] ranges@[i]).0 <= ranges@[i].1 <= v@.len(),
            items@.map_values(|p: (String, String)| (p.0@, p.1@)) == manifest_items(ls, opf_dir@, k as int),
        decreases ranges@.len() - k,
    {
        let (a, b) = ranges[k];
        let line = &v.as_slice()[a..b];
        assert(line@ == ls[k as int]);
        let ghost before = items@;
        match manifest_line(line, opf_dir) {
            Some(it) => {
                items.push(it);
                assert(items@.map_values(|p: (String, String)| (p.0@, p.1@)) =~= before.map_values(
                    |p: (String, String)| (p.0@, p.1@),
                ).push(manifest_item(ls[k as int], opf_dir@)->0));
            },
            None => {
                assert(items@.map_values(|p: (String, String)| (p.0@, p.1@)) =~= before.map_values(
                    |p: (String, String)| (p.0@, p.1@),
                ) + Seq::empty());
            },
        }
        k += 1;
    }
    let ghost all_items = manifest_items(ls, opf_dir@, ls.len() as int);
    let mut ordered: Vec<String> = Vec::new();
    let mut k: usize = 0;
    while k < ranges.len()
        invariant
            v@ == opf_content@,
            pieces(v@, ranges@) == ls,
            ls == lines(opf_content@),
            k <= ranges@.len(),
            forall|i: int| 0 <= i < ranges@.len() ==> (#[trigger] ranges@[i]).0 <= ranges@[i].1 <= v@.len(),
            items@.map_values(|p: (String, String)| (p.0@, p.1@)) == all_items,
            texts(ordered@) == spine_paths(ls, all_items, k as int),
        decreases ranges@.len() - k,
    {
        let (a, b) = ranges[k];
        let line = &v.as_slice()[a..b];
        assert(line@ == ls[k as int]);
        let ghost before = ordered@;
        match spine_line(line, &items) {
            Some(p) => {
                ordered.push(p);
                assert(texts(ordered@) =~= texts(before).push(ordered@.last()@));
            },
            None => {
                assert(texts(ordered@) =~= texts(before) + Seq::empty());
            },
        }
        k += 1;
    }
    if ordered.len() == 0 {
        None
    } else {
        Some(ordered)
    }
}

// ── Ordering file names ──────────────────────────────────────────────

/// `a` sorts strictly before `b`, comparing characters by code point (the
/// order of their UTF-8 bytes).
pub open spec fn lex_lt(a: Seq<char>, b: Seq<char>) -> bool
    decreases a.len(),
{
    if b.len() == 0 {
        false
    } else if a.len() == 0 {
        true
    } else if a[0] != b[0] {
        a[0] < b[0]
    } else {
        lex_lt(a.drop_first(), b.drop_first())
    }
}

proof fn lemma_lex_irreflexive(a: Seq<char>)
    ensures
        !lex_lt(a, a),
    decreases a.len(),
{
    if a.len() > 0 {
        lemma_lex_irreflexive(a.drop_first());
    }
}

proof fn lemma_lex_total(a: Seq<char>, b: Seq<char>)
    ensures
        a == b || lex_lt(a, b) || lex_lt(b, a),
        !(lex_lt(a, b) && lex_lt(b, a)),
    decreases a.len(),
{
    if a.len() == 0 && b.len() == 0 {
        assert(a =~= b);
    } else if a.len() > 0 && b.len() > 0 {
        if a[0] == b[0] {
            lemma_lex_total(a.drop_first(), b.drop_first());
            if a.drop_first() == b.drop_first() {
                assert(a =~= b) by {
                    assert forall|i: int| 0 <= i < a.len() implies a[i] == b[i] by {
                        if i > 0 {
                            assert(a[i] == a.drop_first()[i - 1]);
                            assert(b[i] == b.drop_first()[i - 1]);
                        }
                    }
                }
            }
        }
    }
}

proof fn lemma_lex_trans(a: Seq<char>, b: Seq<char>, c: Seq<char>)
    requires
        lex_lt(a, b),
        lex_lt(b, c),
    ensures
        lex_lt(a, c),
    decreases a.len(),
{
    if a.len() > 0 && b.len() > 0 && c.len() > 0 && a[0] == b[0] && b[0] == c[0] {
        lemma_lex_trans(a.drop_first(), b.drop_first(), c.drop_first());
    }
}

/// `s` is in strictly increasing order.
pub open spec fn strictly_sorted(s: Seq<Seq<char>>) -> bool {
    forall|i: int, j: int| 0 <= i < j < s.len() ==> lex_lt(#[trigger] s[i], #[trigger] s[j])
}

/// Inserts `x` into a sorted list unless it is already there.
fn insert_sorted(v: &mut Vec<String>, x: String)
    requires
        strictly_sorted(texts(old(v)@)),
    ensures
        strictly_sorted(texts(final(v)@)),
        forall|y: Seq<char>| #[trigger] texts(final(v)@).contains(y) <==> (texts(old(v)@).contains(y) || y == x@),
{
    let ghost old_t = texts(v@);
    let mut p: usize = 0;
    while p < v.len() && lex_lt_exec(&v[p], &x)
        invariant
            p <= v@.len(),
            texts(v@) == old_t,
            strictly_sorted(old_t),
            forall|i: int| 0 <= i < p ==> lex_lt(#[trigger] old_t[i], x@),
        decreases v.len() - p,
    {
        p += 1;
    }
    if p < v.len() && v[p] == x {
        assert(old_t[p as int] == x@);
        return;
    }
    proof {
        lemma_lex_irreflexive(x@);
        if p < old_t.len() {
            lemma_lex_total(old_t[p as int], x@);
            assert(lex_lt(x@, old_t[p as int]));
            assert forall|j: int| p <= j < old_t.len() implies lex_lt(x@, #[trigger] old_t[j]) by {
                if j > p {
                    lemma_lex_trans(x@, old_t[p as int], old_t[j]);
                }
            }
        }
    }
    v.insert(p, x);
    let ghost new_t = texts(v@);
    assert(new_t =~= old_t.insert(p as int, x@));
    assert forall|i: int, j: int| 0 <= i < j < new_t.len() implies lex_lt(#[trigger] new_t[i], #[trigger] new_t[j]) by {
        if i < p && j == p {
        } else if i < p && j > p {
            assert(new_t[j] == old_t[j - 1]);
            lemma_lex_trans(old_t[i], x@, old_t[j - 1]);
        } else if i == p {
            assert(new_t[j] == old_t[j - 1]);
        } else if j < p {
        } else {
            assert(new_t[i] == old_t[i - 1]);
            assert(new_t[j] == old_t[j - 1]);
        }
    }
    assert forall|y: Seq<char>| #[trigger] new_t.contains(y) <==> (old_t.contains(y) || y == x@) by {
        if new_t.contains(y) {
            let k = choose|k: int| 0 <= k < new_t.len() && new_t[k] == y;
            if k < p {
                assert(old_t[k] == y);
            } else if k > p {
                assert(old_t[k - 1] == y);
            }
        }
        if old_t.contains(y) {
            let k = choose|k: int| 0 <= k < old_t.len() && old_t[k] == y;
            if k < p {
                assert(new_t[k] == y);
            } else {
                assert(new_t[k + 1] == y);
            }
        }
        if y == x@ {
            assert(new_t[p as int] == y);
        }
    }
}

fn lex_lt_exec(a: &String, b: &String) -> (r: bool)
    ensures
        r == lex_lt(a@, b@),
{
    let x = str_chars(a.as_str());
    let y = str_chars(b.as_str());
    let mut i: usize = 0;
    assert(x@.subrange(0, x@.len() as int) =~= x@);
    assert(y@.subrange(0, y@.len() as int) =~= y@);
    while i < x.len() && i < y.len() && x[i] == y[i]
        invariant
            i <= x@.len(),
            i <= y@.len(),
            lex_lt(x@, y@) == lex_lt(x@.subrange(i as int, x@.len() as int), y@.subrange(i as int, y@.len() as int)),
        decreases x.len() - i,
    {
        assert(x@.subrange(i as int, x@.len() as int).drop_first() =~= x@.subrange(i + 1, x@.len() as int));
        assert(y@.subrange(i as int, y@.len() as int).drop_first() =~= y@.subrange(i + 1, y@.len() as int));
        i += 1;
    }
    assert(x@.subrange(0, x@.len() as int) =~= x@);
    assert(y@.subrange(0, y@.len() as int) =~= y@);
    if i == y.len() {
        return false;
    }
    if i == x.len() {
        return true;
    }
    x[i] < y[i]
}

/// The little-endian bytes of `v` (`u64::to_le_bytes`).
pub fn le_bytes(v: u64) -> (r: [u8; 8])
    ensures
        forall|i: int| 0 <= i < 8 ==> #[trigger] r@[i] == ((v >> (8 * i) as u64) & 0xff) as u8,
{
    let mut r = [0u8; 8];
    let mut i: usize = 0;
    while i < 8
        invariant
            i <= 8,
            r@.len() == 8,
            forall|j: int| 0 <= j < i ==> #[trigger] r@[j] == ((v >> (8 * j) as u64) & 0xff) as u8,
        decreases 8 - i,
    {
        let shift = (8 * i) as u64;
        r[i] = ((v >> shift) & 0xff) as u8;
        i += 1;
    }
    r
}

// ── Chapters ─────────────────────────────────────────────────────────

/// An HTML chapter file of the archive.
pub open spec fn is_html_name(n: Seq<char>) -> bool {
    ends_with(n, ".html"@) || ends_with(n, ".xhtml"@) || ends_with(n, ".htm"@)
}

/// The text of the last entry named `name` among the first `n`.
pub open spec fn entry_text(es: Seq<(String, String)>, name: Seq<char>, n: int) -> Option<Seq<char>>
    decreases n,
{
    if n <= 0 {
        None
    } else if es[n - 1].0@ == name && is_html_name(name) {
        Some(es[n - 1].1@)
    } else {
        entry_text(es, name, n - 1)
    }
}

/// The text of the first HTML entry whose name ends with `base`, from `i` on.
pub open spec fn entry_with_suffix(es: Seq<(String, String)>, base: Seq<char>, i: int) -> Option<Seq<char>>
    decreases es.len() - i,
{
    if i < 0 || i >= es.len() {
        None
    } else if is_html_name(es[i].0@) && ends_with(es[i].0@, base) {
        Some(es[i].1@)
    } else {
        entry_with_suffix(es, base, i + 1)
    }
}

/// The part of a path after its last `/`.
pub open spec fn basename(p: Seq<char>) -> Seq<char> {
    if exists|k: int| 0 <= k < p.len() && p[k] == '/' {
        let k = choose|k: int|
            0 <= k < p.len() && p[k] == '/' && forall|j: int| k < j < p.len() ==> p[j] != '/';
        p.subrange(k + 1, p.len() as int)
    } else {
        p
    }
}

/// The text of a chapter path (its Markdown): the entry of that name, else
/// an entry whose name ends with the path's file name.
pub open spec fn chapter_html(es: Seq<(String, String)>, path: Seq<char>) -> Option<Seq<char>> {
    match entry_text(es, path, es.len() as int) {
        Some(h) => Some(h),
        None => entry_with_suffix(es, basename(path), 0),
    }
}

fn last_slash(v: &[char]) -> (r: usize)
    ensures
        r <= v@.len(),
        basename(v@) == v@.subrange(r as int, v@.len() as int),
{
    let mut k = v.len();
    while k > 0 && v[k - 1] != '/'
        invariant
            k <= v@.len(),
            forall|j: int| k <= j < v@.len() ==> v@[j] != '/',
        decreases k,
    {
        k -= 1;
    }
    proof {
        if k == 0 {
            assert(!exists|j: int| 0 <= j < v@.len() && v@[j] == '/');
            assert(v@.subrange(0, v@.len() as int) =~= v@);
        } else {
            let t = k - 1;
            let c = choose|c: int|
                0 <= c < v@.len() && v@[c] == '/' && forall|j: int| c < j < v@.len() ==> v@[j] != '/';
            if c < t {
                assert(v@[t] != '/');
            }
            if c > t {
                assert(v@[c] != '/');
            }
        }
    }
    k
}

fn html_name(n: &String) -> (b: bool)
    ensures
        b == is_html_name(n@),
{
    let v = str_chars(n.as_str());
    let a = str_chars(".html");
    let b = str_chars(".xhtml");
    let c = str_chars(".htm");
    ends_with_exec(v.as_slice(), a.as_slice()) || ends_with_exec(v.as_slice(), b.as_slice())
        || ends_with_exec(v.as_slice(), c.as_slice())
}

fn find_chapter_html(entries: &[(String, String)], path: &String) -> (r: Option<String>)
    ensures
        match chapter_html(entries@, path@) {
            Some(h) => r matches Some(s) && s@ == h,
            None => r is None,
        },
{
    let mut n = entries.len();
    while n > 0
        invariant
            n <= entries@.len(),
            entry_text(entries@, path@, entries@.len() as int) == entry_text(entries@, path@, n as int),
        decreases n,
    {
        if entries[n - 1].0 == *path && html_name(path) {
            return Some(entries[n - 1].1.clone());
        }
        n -= 1;
    }
    let pv = str_chars(path.as_str());
    let k = last_slash(pv.as_slice());
    let base = &pv.as_slice()[k..pv.len()];
    assert(base@ == basename(path@));
    let mut i: usize = 0;
    while i < entries.len()
        invariant
            i <= entries@.len(),
            entry_text(entries@, path@, entries@.len() as int) is None,
            base@ == basename(path@),
            entry_with_suffix(entries@, base@, 0) == entry_with_suffix(entries@, base@, i as int),
        decreases entries.len() - i,
    {
        let name = str_chars(entries[i].0.as_str());
        if html_name(&entries[i].0) && ends_with_exec(name.as_slice(), base) {
            assert(entry_with_suffix(entries@, base@, i as int) == Some(entries@[i as int].1@));
            assert(entry_text(entries@, path@, entries@.len() as int) is None);
            return Some(entries[i].1.clone());
        }
        i += 1;
    }
    None
}

/// The directory of the last `.opf` entry, and its text.
pub open spec fn opf_entry(es: Seq<(String, String)>, n: int) -> Option<(Seq<char>, Seq<char>)>
    decreases n,
{
    if n <= 0 {
        None
    } else if ends_with(es[n - 1].0@, ".opf"@) {
        let name = es[n - 1].0@;
        let b = basename(name);
        Some(
            (
                if b.len() == name.len() {
                    seq![]
                } else {
                    name.subrange(0, name.len() - b.len() - 1)
                },
                es[n - 1].1@,
            ),
        )
    } else {
        opf_entry(es, n - 1)
    }
}

/// The names of the HTML entries among the first `n`.
pub open spec fn html_names(es: Seq<(String, String)>, n: int) -> Set<Seq<char>> {
    Set::new(|x: Seq<char>| exists|i: int| 0 <= i < n && #[trigger] es[i].0@ == x && is_html_name(x))
}

/// The order of the chapters: the OPF spine's, else the HTML file names in
/// sorted order.
pub open spec fn chapter_order_ok(es: Seq<(String, String)>, order: Seq<Seq<char>>) -> bool {
    match opf_entry(es, es.len() as int) {
        Some((dir, opf)) if spine_order(dir, opf) is Some => order == spine_order(dir, opf)->0,
        _ => strictly_sorted(order) && forall|x: Seq<char>|
            #[trigger] order.contains(x) <==> html_names(es, es.len() as int).contains(x),
    }
}

fn opf_of(entries: &[(String, String)]) -> (r: Option<(String, String)>)
    ensures
        match opf_entry(entries@, entries@.len() as int) {
            Some((d, t)) => r matches Some((a, b)) && a@ == d && b@ == t,
            None => r is None,
        },
{
    let mut n = entries.len();
    while n > 0
        invariant
            n <= entries@.len(),
            opf_entry(entries@, entries@.len() as int) == opf_entry(entries@, n as int),
        decreases n,
    {
        let name = str_chars(entries[n - 1].0.as_str());
        let ext = str_chars(".opf");
        if ends_with_exec(name.as_slice(), ext.as_slice()) {
            let k = last_slash(name.as_slice());
            let dir = if k == 0 {
                String::new()
            } else {
                string_from_range(name.as_slice(), 0, k - 1)
            };
            proof {
                let b = basename(name@);
                assert(b.len() == name@.len() - k);
            }
            return Some((dir, entries[n - 1].1.clone()));
        }
        n -= 1;
    }
    None
}

/// The chapter order of an archive.
pub fn chapter_order(entries: &[(String, String)]) -> (r: Vec<String>)
    ensures
        chapter_order_ok(entries@, texts(r@)),
{
    if let Some((dir, opf)) = opf_of(entries) {
        if let Some(order) = parse_spine_order(dir.as_str(), opf.as_str()) {
            return order;
        }
    }
    let mut names: Vec<String> = Vec::new();
    let mut i: usize = 0;
    while i < entries.len()
        invariant
            i <= entries@.len(),
            strictly_sorted(texts(names@)),
            forall|x: Seq<char>| #[trigger] texts(names@).contains(x) <==> html_names(entries@, i as int).contains(x),
        decreases entries.len() - i,
    {
        let ghost before = texts(names@);
        if html_name(&entries[i].0) {
            insert_sorted(&mut names, entries[i].0.clone());
        }
        proof {
            assert forall|x: Seq<char>| #[trigger] texts(names@).contains(x) <==> html_names(entries@, i + 1).contains(x) by {
                if html_names(entries@, i + 1).contains(x) {
                    let j = choose|j: int| 0 <= j < i + 1 && #[trigger] entries@[j].0@ == x && is_html_name(x);
                    if j < i {
                        assert(html_names(entries@, i as int).contains(x));
                    }
                }
                if html_names(entries@, i as int).contains(x) {
                    let j = choose|j: int| 0 <= j < i && #[trigger] entries@[j].0@ == x && is_html_name(x);
                    assert(html_names(entries@, i + 1).contains(x));
                }
                if x == entries@[i as int].0@ && is_html_name(x) {
                    assert(html_names(entries@, i + 1).contains(x));
                }
            }
        }
        i += 1;
    }
    names
}

/// The chapter documents of a book whose chapters come in `order`: document
/// `k` is the chapter at position `idxs[k]` of `order`, whose Markdown is not
/// blank, and is called `chapter_NNN` after that position.
pub open spec fn chapter_docs_ok(
    es: Seq<(String, String)>,
    order: Seq<Seq<char>>,
    book_id: Uuid,
    docs: Seq<(Document, String)>,
    idxs: Seq<int>,
) -> bool {
    &&& docs.len() == idxs.len()
    &&& forall|k: int|
        0 <= k < docs.len() ==> 0 <= #[trigger] idxs[k] < order.len() && chapter_doc_at(
            es,
            order,
            book_id,
            docs[k],
            idxs[k],
        )
}

/// The bytes of the chapters' texts added up as a `u64` that wraps around
/// on overflow, as the book's record counts them.
pub open spec fn chapters_size(docs: Seq<(Document, String)>) -> u64
    decreases docs.len(),
{
    if docs.len() == 0 {
        0
    } else {
        vstd::wrapping::u64_specs::wrapping_add(
            chapters_size(docs.drop_last()),
            vstd::utf8::encode_utf8(docs.last().1@).len() as u64,
        )
    }
}

/// The eight little-endian bytes of `v`.
pub open spec fn le64_bytes(v: u64) -> Seq<u8> {
    Seq::new(8, |i: int| ((v >> (8 * i) as u64) & 0xff) as u8)
}

/// Position `idx` of `order` names an HTML file of the archive whose
/// Markdown is not blank: it becomes a chapter.
pub open spec fn chapter_kept(es: Seq<(String, String)>, order: Seq<Seq<char>>, idx: int) -> bool {
    match chapter_html(es, order[idx]) {
        Some(h) => trim(h).len() > 0,
        None => false,
    }
}

/// The chapter positions `idxs` rise strictly and are exactly the kept
/// positions among the first `n` of `order`.
pub open spec fn chapter_positions_ok(
    es: Seq<(String, String)>,
    order: Seq<Seq<char>>,
    idxs: Seq<int>,
    n: int,
) -> bool {
    &&& forall|a: int, b: int| 0 <= a < b < idxs.len() ==> idxs[a] < idxs[b]
    &&& forall|j: int| 0 <= j < n ==> (chapter_kept(es, order, j) <==> idxs.contains(j))
}

/// Document `d` is the chapter at position `idx` of `order`.
#[verifier::opaque]
pub open spec fn chapter_doc_at(
    es: Seq<(String, String)>,
    order: Seq<Seq<char>>,
    book_id: Uuid,
    d: (Document, String),
    idx: int,
) -> bool {
    match chapter_html(es, order[idx]) {
        Some(h) => {
            &&& d.1@ == h
            &&& trim(h).len() > 0
            &&& d.0.external_id@ == "chapter_"@ + zero_pad(dec_digits(idx as nat), 3)
            &&& d.0.parent_id == Some(book_id)
            &&& d.0.depth == 1
            &&& d.0.content_type == ContentType::Book
            &&& d.0.privacy_level == PrivacyLevel::Internal
            &&& d.0.title@ == chapter_title_spec(h, idx)
            &&& d.0.content_hash.0@ == text_hash(h)
            &&& d.0.content_size == vstd::utf8::encode_utf8(h).len()
        },
        None => false,
    }
}

/// A chapter's title: its first `# ` heading, else `Chapter <idx + 1>`.
pub open spec fn chapter_title_spec(markdown: Seq<char>, idx: int) -> Seq<char> {
    match chapter_heading(lines(markdown)) {
        Some(t) => t,
        None => "Chapter "@ + dec_digits((idx + 1) as nat),
    }
}

fn le_bytes_of(v: u64) -> (r: [u8; 8])
    ensures
        r@ == le64_bytes(v),
{
    let r = le_bytes(v);
    assert(r@ =~= le64_bytes(v));
    r
}

/// The documents of an EPUB book from its archive entries `(name, text)`,
/// whose HTML files come already converted to Markdown:
/// first the book itself (external id `book`, titled by the OPF title or the
/// file stem, no text), then its chapters in spine order.
pub fn extract_epub(entries: &[(String, String)], file_stem: &str, source_id: Uuid) -> (r: Vec<(Document, String)>)
    ensures
        r@.len() >= 1,
        r@[0].0.external_id@ == "book"@,
        r@[0].0.title@ == match opf_entry(entries@, entries@.len() as int) {
            Some((_, opf)) => match opf_title(opf) {
                Some(t) => t,
                None => file_stem@,
            },
            None => file_stem@,
        },
        r@[0].1@.len() == 0,
        r@[0].0.depth == 0,
        r@[0].0.parent_id is None,
        r@[0].0.content_type == ContentType::Book,
        r@[0].0.source_id == source_id,
        r@[0].0.privacy_level == PrivacyLevel::Internal,
        r@[0].0.content_size == chapters_size(r@.subrange(1, r@.len() as int)),
        r@[0].0.content_hash.0@ == blake3_digest(le64_bytes(r@[0].0.content_size)),
        forall|k: int| 1 <= k < r@.len() ==> (#[trigger] r@[k]).0.source_id == source_id,
        exists|order: Seq<Seq<char>>, idxs: Seq<int>|
            #[trigger] chapter_order_ok(entries@, order) && #[trigger] chapter_docs_ok(
                entries@,
                order,
                r@[0].0.id,
                r@.subrange(1, r@.len() as int),
                idxs,
            ) && chapter_positions_ok(entries@, order, idxs, order.len() as int),
{
    let order = chapter_order(entries);
    let book_title = match opf_of(entries) {
        Some((_, opf)) => match parse_title(opf.as_str()) {
            Some(t) => t,
            None => String::from_str(file_stem),
        },
        None => String::from_str(file_stem),
    };
    let book_id = new_id();
    let mut chapters: Vec<(Document, String)> = Vec::new();
    let ghost mut idxs: Seq<int> = seq![];
    let mut total: u64 = 0;
    let mut idx: usize = 0;
    while idx < order.len()
        invariant
            idx <= order@.len(),
            chapter_docs_ok(entries@, texts(order@), book_id, chapters@, idxs),
            forall|k: int| 0 <= k < idxs.len() ==> #[trigger] idxs[k] < idx,
            chapter_positions_ok(entries@, texts(order@), idxs, idx as int),
            total == chapters_size(chapters@),
            forall|k: int| 0 <= k < chapters@.len() ==> (#[trigger] chapters@[k]).0.source_id == source_id,
        decreases order.len() - idx,
    {
        let ghost idxs0 = idxs;
        proof {
            assert(texts(order@)[idx as int] == order@[idx as int]@);
        }
        let found = find_chapter_html(entries, &order[idx]);
        if let Some(html) = found {
            let md = html;
            let mv = str_chars(md.as_str());
            let (a, b) = trim_range(mv.as_slice(), 0, mv.len());
            assert(mv@.subrange(0, mv@.len() as int) =~= mv@);
            if a < b {
                let title = match extract_chapter_title(md.as_str()) {
                    Some(t) => t,
                    None => {
                        let mut t = String::from_str("Chapter ");
                        push_decimal(&mut t, (idx as u64) + 1, 0);
                        proof {
                            reveal_strlit("Chapter ");
                            assert(zero_pad(dec_digits((idx + 1) as nat), 0) =~= dec_digits((idx + 1) as nat));
                        }
                        t
                    },
                };
                assert(title@ == chapter_title_spec(md@, idx as int));
                let mut external_id = String::from_str("chapter_");
                push_decimal(&mut external_id, idx as u64, 3);
                proof {
                    reveal_strlit("chapter_");
                }
                let size = md.as_str().as_bytes().len() as u64;
                total = total.wrapping_add(size);
                let created = now_rfc3339();
                let indexed = now_rfc3339();
                let doc = Document {
                    id: new_id(),
                    source_id,
                    external_id,
                    parent_id: Some(book_id),
                    depth: 1,
                    title,
                    content_type: ContentType::Book,
                    language: None,
                    content_hash: hash_text(md.as_str()),
                    content_size: size,
                    created_at: created,
                    indexed_at: indexed,
                    privacy_level: PrivacyLevel::Internal,
                };
                let ghost before = chapters@;
                chapters.push((doc, md));
                proof {
                    assert(chapters@.drop_last() =~= before);
                    assert(texts(order@)[idx as int] == order@[idx as int]@);
                    assert(chapter_html(entries@, texts(order@)[idx as int]) == Some(html@));
                    assert(chapter_doc_at(entries@, texts(order@), book_id, chapters@.last(), idx as int)) by {
                        reveal(chapter_doc_at);
                    }
                    let old_idxs = idxs;
                    idxs = idxs.push(idx as int);
                    assert forall|k: int| 0 <= k < chapters@.len() implies 0 <= #[trigger] idxs[k]
                        < texts(order@).len() && chapter_doc_at(
                        entries@,
                        texts(order@),
                        book_id,
                        chapters@[k],
                        idxs[k],
                    ) by {
                        if k < before.len() {
                            assert(chapters@[k] == before[k]);
                            assert(idxs[k] == old_idxs[k]);
                        }
                    }
                }
            }
        }
        proof {
            let o = texts(order@);
            if idxs == idxs0 {
                assert(!chapter_kept(entries@, o, idx as int));
                assert(!idxs.contains(idx as int));
            } else {
                assert(idxs == idxs0.push(idx as int));
                assert(chapter_kept(entries@, o, idx as int));
                assert(idxs[idxs0.len() as int] == idx);
            }
            assert forall|j: int| 0 <= j < idx + 1 implies (chapter_kept(entries@, o, j) <==> idxs.contains(j)) by {
                if j < idx {
                    if idxs0.contains(j) {
                        let q = choose|q: int| 0 <= q < idxs0.len() && idxs0[q] == j;
                        assert(idxs[q] == j);
                    }
                    if idxs.contains(j) {
                        let q = choose|q: int| 0 <= q < idxs.len() && idxs[q] == j;
                        if q < idxs0.len() {
                            assert(idxs0[q] == j);
                        }
                    }
                } else if idxs.contains(j) && idxs == idxs0 {
                    let q = choose|q: int| 0 <= q < idxs.len() && idxs[q] == j;
                    assert(idxs0[q] < idx);
                }
            }
        }
        idx += 1;
    }
    let created = now_rfc3339();
    let indexed = now_rfc3339();
    let root = Document {
        id: book_id,
        source_id,
        external_id: String::from_str("book"),
        parent_id: None,
        depth: 0,
        title: book_title,
        content_type: ContentType::Book,
        language: None,
        content_hash: ContentHash::from_bytes(&le_bytes_of(total)),
        content_size: total,
        created_at: created,
        indexed_at: indexed,
        privacy_level: PrivacyLevel::Internal,
    };
    let mut result: Vec<(Document, String)> = Vec::new();
    result.push((root, String::new()));
    let ghost ch = chapters@;
    let mut chapters = chapters;
    result.append(&mut chapters);
    assert(result@.subrange(1, result@.len() as int) =~= ch);
    assert(chapter_docs_ok(entries@, texts(order@), book_id, result@.subrange(1, result@.len() as int), idxs));
    assert(chapter_order_ok(entries@, texts(order@)));
    assert(result@[0].0.id == book_id);
    assert(chapter_docs_ok(entries@, texts(order@), result@[0].0.id, result@.subrange(1, result@.len() as int), idxs));
    proof {
        reveal_strlit("book");
    }
    result
}

// ── The archive ──────────────────────────────────────────────────────

/// What the zip crate reads from an archive's bytes: the number of its
/// entries, or the message of the error it refuses the archive with.
pub uninterp spec fn zip_entry_count(archive: Seq<u8>) -> Result<nat, Seq<char>>;

/// What the zip crate reads of entry `i` of an archive: its name and its
/// contents read into a string, or the message of the error it gives.
pub uninterp spec fn zip_text_entry(archive: Seq<u8>, i: nat) -> Result<(Seq<char>, Seq<char>), Seq<char>>;

/// `zip::ZipArchive::new` over the bytes, then `len`: the named count, or
/// the error's message.
#[verifier::external_body]
fn zip_count(archive: &[u8]) -> (r: Result<usize, String>)
    ensures
        match r {
            Ok(n) => zip_entry_count(archive@) == Ok::<nat, Seq<char>>(n as nat),
            Err(m) => zip_entry_count(archive@) == Err::<nat, Seq<char>>(m@),
        },
{
    match ZipArchive::new(Cursor::new(archive)) {
        Ok(a) => Ok(a.len()),
        Err(e) => Err(e.to_string()),
    }
}

/// `zip::ZipArchive::new` over the bytes, `by_index(i)`, the entry's
/// `name`, and `read_to_string` into an empty string, whose error is
/// ignored and whose text is kept: the named reading of entry `i`, or the
/// first error's message.
#[verifier::external_body]
fn zip_entry(archive: &[u8], i: usize) -> (r: Result<(String, String), String>)
    ensures
        match r {
            Ok((name, text)) => zip_text_entry(archive@, i as nat) == Ok::<(Seq<char>, Seq<char>), Seq<char>>((name@, text@)),
            Err(m) => zip_text_entry(archive@, i as nat) == Err::<(Seq<char>, Seq<char>), Seq<char>>(m@),
        },
{
    let mut a = ZipArchive::new(Cursor::new(archive)).map_err(|e| e.to_string())?;
    let mut f = a.by_index(i).map_err(|e| e.to_string())?;
    let name = f.name().map_err(|e| e.to_string())?.to_string();
    let mut text = String::new();
    let _ = f.read_to_string(&mut text);
    Ok((name, text))
}

/// An entry the book is made from: the OPF package or an HTML file.
pub open spec fn book_entry_name(n: Seq<char>) -> bool {
    ends_with(n, ".opf"@) || is_html_name(n)
}

/// The book's entries among the first `n` of an archive, in archive order,
/// or the first error reading them gave.
pub open spec fn book_entries_upto(archive: Seq<u8>, n: int) -> Result<Seq<(Seq<char>, Seq<char>)>, Seq<char>>
    decreases n,
{
    if n <= 0 {
        Ok(seq![])
    } else {
        match book_entries_upto(archive, n - 1) {
            Err(m) => Err(m),
            Ok(prev) => match zip_text_entry(archive, (n - 1) as nat) {
                Err(m) => Err(m),
                Ok((name, text)) => Ok(
                    if book_entry_name(name) {
                        prev.push((name, text))
                    } else {
                        prev
                    },
                ),
            },
        }
    }
}

/// The views of `(name, text)` pairs.
pub open spec fn pair_views(v: Seq<(String, String)>) -> Seq<(Seq<char>, Seq<char>)> {
    v.map_values(|p: (String, String)| (p.0@, p.1@))
}

/// The entries of an EPUB archive that the book is made from: its `.opf`
/// package and its HTML files, `(name, text)` in archive order. An archive
/// the zip crate refuses gives `invalid EPUB: ` and its message; an entry
/// it cannot read gives that error's message.
pub fn epub_entries(archive: &[u8]) -> (r: Result<Vec<(String, String)>, Error>)
    ensures
        match zip_entry_count(archive@) {
            Err(m) => r matches Err(Error::Storage(s)) && s@ == "invalid EPUB: "@ + m,
            Ok(n) => match book_entries_upto(archive@, n as int) {
                Err(m) => r matches Err(Error::Storage(s)) && s@ == m,
                Ok(es) => r matches Ok(v) && pair_views(v@) == es,
            },
        },
{
    let n = match zip_count(archive) {
        Ok(n) => n,
        Err(m) => {
            let mut s = String::from_str("invalid EPUB: ");
            s.append(m.as_str());
            return Err(Error::Storage(s));
        },
    };
    let opf = str_chars(".opf");
    proof {
        reveal_strlit(".opf");
    }
    let mut out: Vec<(String, String)> = Vec::new();
    assert(pair_views(out@) =~= Seq::<(Seq<char>, Seq<char>)>::empty());
    let mut i: usize = 0;
    while i < n
        invariant
            i <= n,
            zip_entry_count(archive@) == Ok::<nat, Seq<char>>(n as nat),
            opf@ == ".opf"@,
            book_entries_upto(archive@, i as int) == Ok::<Seq<(Seq<char>, Seq<char>)>, Seq<char>>(pair_views(out@)),
        decreases n - i,
    {
        match zip_entry(archive, i) {
            Err(m) => {
                proof {
                    assert(book_entries_upto(archive@, i + 1) == Err::<Seq<(Seq<char>, Seq<char>)>, Seq<char>>(m@));
                    lemma_book_entries_err(archive@, i + 1, n as int, m@);
                }
                return Err(Error::Storage(m));
            },
            Ok((name, text)) => {
                let chars = str_chars(name.as_str());
                let wanted = ends_with_exec(chars.as_slice(), opf.as_slice()) || html_name(&name);
                let ghost before = out@;
                if wanted {
                    out.push((name, text));
                    assert(pair_views(out@) =~= pair_views(before).push((out@.last().0@, out@.last().1@)));
                }
            },
        }
        i += 1;
    }
    Ok(out)
}

proof fn lemma_book_entries_err(archive: Seq<u8>, i: int, n: int, m: Seq<char>)
    requires
        0 <= i <= n,
        book_entries_upto(archive, i) == Err::<Seq<(Seq<char>, Seq<char>)>, Seq<char>>(m),
    ensures
        book_entries_upto(archive, n) == Err::<Seq<(Seq<char>, Seq<char>)>, Seq<char>>(m),
    decreases n - i,
{
    if i < n {
        lemma_book_entries_err(archive, i + 1, n, m);
    }
}

} // verus!
