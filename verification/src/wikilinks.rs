//! Entity mentions from markdown `[[wikilinks]]`.
use vstd::prelude::*;
use crate::facts::{wiki_entity_id, wiki_id};
use crate::sources::{trim_suffix_all, trim_suffix_all_exec};
use crate::text::{
    before_char, contains, is_ws, contains_exec, find_char_in, starts_with, starts_with_exec, str_chars,
    string_from_chars, string_from_range, trim, trim_range, utf8_len, utf8_len_exceeds,
};

verus! {

// ── Scanning ─────────────────────────────────────────────────────────

/// `t[i]` and `t[i + 1]` are both `c`.
pub open spec fn pair_at(t: Seq<char>, i: int, c: char) -> bool {
    0 <= i && i + 1 < t.len() && t[i] == c && t[i + 1] == c
}

/// Where the link opened before `pos` closes, with `depth` links still open:
/// the position of the `]]` that brings the depth to zero. Nested `[[` opens
/// one more level; an unclosed link yields `None`.
pub open spec fn close_at(t: Seq<char>, pos: int, depth: int) -> Option<int>
    decreases t.len() - pos,
{
    if 0 <= pos && pos + 1 < t.len() {
        if pair_at(t, pos, ']') {
            if depth <= 1 {
                Some(pos)
            } else {
                close_at(t, pos + 1, depth - 1)
            }
        } else if pair_at(t, pos, '[') {
            close_at(t, pos + 2, depth + 1)
        } else {
            close_at(t, pos + 1, depth)
        }
    } else {
        None
    }
}

/// The texts between `[[` and its matching `]]`, scanning `t` from `pos`:
/// after a closed link the scan resumes behind its `]]`; an unclosed link ends it.
pub open spec fn link_texts_from(t: Seq<char>, pos: int) -> Seq<Seq<char>>
    decreases t.len() - pos,
{
    if 0 <= pos && pos + 1 < t.len() {
        if pair_at(t, pos, '[') {
            match close_at(t, pos + 2, 1) {
                Some(c) => if c >= pos + 2 && c + 2 <= t.len() {
                    seq![t.subrange(pos + 2, c)] + link_texts_from(t, c + 2)
                } else {
                    seq![]
                },
                None => seq![],
            }
        } else {
            link_texts_from(t, pos + 1)
        }
    } else {
        seq![]
    }
}

/// The entity named by one link's text: the page part before any `|` display
/// text and `#` section, trimmed. Empty pages, pages over 200 bytes, links
/// starting with `:` and `File`/`Image`/`Category` namespace links name none.
pub open spec fn parse_wikilink_spec(link: Seq<char>) -> Option<Seq<char>> {
    let l = trim(link);
    if l.len() == 0 || l[0] == ':' {
        None
    } else {
        let page = trim(before_char(before_char(l, '|'), '#'));
        if page.len() == 0 || utf8_len(page) > 200 {
            None
        } else if contains(page, seq![':']) && (starts_with(page, "File"@) || starts_with(
            page,
            "Image"@,
        ) || starts_with(page, "Category"@)) {
            None
        } else {
            Some(page)
        }
    }
}

/// The entity names of a sequence of link texts, in order.
pub open spec fn names_of(texts: Seq<Seq<char>>) -> Seq<Seq<char>>
    decreases texts.len(),
{
    if texts.len() == 0 {
        seq![]
    } else {
        names_of(texts.drop_last()) + match parse_wikilink_spec(texts.last()) {
            Some(n) => seq![n],
            None => seq![],
        }
    }
}

/// Every entity mention in `text`, in order of appearance.
pub open spec fn wikilink_names(text: Seq<char>) -> Seq<Seq<char>> {
    names_of(link_texts_from(text, 0))
}

/// How often `n` occurs in `names`.
pub open spec fn mention_count(names: Seq<Seq<char>>, n: Seq<char>) -> nat
    decreases names.len(),
{
    if names.len() == 0 {
        0
    } else {
        mention_count(names.drop_last(), n) + if names.last() == n {
            1nat
        } else {
            0nat
        }
    }
}

/// A mention count as a `u32` holds it: counts past `u32::MAX` stay there.
pub open spec fn capped(c: nat) -> nat {
    if c > u32::MAX {
        u32::MAX as nat
    } else {
        c
    }
}

/// Entity name to number of mentions (held at `u32::MAX` once past it).
pub open spec fn mention_map(names: Seq<Seq<char>>) -> Map<Seq<char>, nat> {
    Map::new(
        |n: Seq<char>| mention_count(names, n) > 0,
        |n: Seq<char>| capped(mention_count(names, n)),
    )
}

// ── Result type ──────────────────────────────────────────────────────

/// Entity names with their mention counts, each name once.
#[derive(Debug, Clone)]
pub struct WikilinkCounts {
    entries: Vec<(String, u32)>,
}

impl View for WikilinkCounts {
    type V = Map<Seq<char>, nat>;

    closed spec fn view(&self) -> Map<Seq<char>, nat> {
        Map::new(
            |n: Seq<char>| exists|i: int| 0 <= i < self.entries@.len() && self.entries@[i].0@ == n,
            |n: Seq<char>| {
                let i = choose|i: int| 0 <= i < self.entries@.len() && self.entries@[i].0@ == n;
                self.entries@[i].1 as nat
            },
        )
    }
}

impl WikilinkCounts {
    /// The stored names and counts, in order of first mention.
    pub closed spec fn spec_entries(&self) -> Seq<(String, u32)> {
        self.entries@
    }

    /// No name is stored twice.
    pub closed spec fn wf(&self) -> bool {
        forall|i: int, j: int|
            0 <= i < j < self.entries@.len() ==> self.entries@[i].0@ != self.entries@[j].0@
    }

    proof fn lemma_lookup(&self, i: int)
        requires
            self.wf(),
            0 <= i < self.entries@.len(),
        ensures
            self@.contains_key(self.entries@[i].0@),
            self@[self.entries@[i].0@] == self.entries@[i].1 as nat,
    {
        let n = self.entries@[i].0@;
        assert(exists|k: int| 0 <= k < self.entries@.len() && self.entries@[k].0@ == n);
        let k = choose|k: int| 0 <= k < self.entries@.len() && self.entries@[k].0@ == n;
        assert(k == i);
    }

    /// No mentions at all.
    pub fn new() -> (r: WikilinkCounts)
        ensures
            r.wf(),
            r@.dom().len() == 0,
            r@ == Map::<Seq<char>, nat>::empty(),
    {
        let r = WikilinkCounts { entries: Vec::new() };
        assert(r@ =~= Map::<Seq<char>, nat>::empty());
        r
    }

    /// The number of distinct names.
    pub fn len(&self) -> (n: usize)
        ensures
            n == self.spec_entries().len(),
    {
        self.entries.len()
    }

    /// Whether no entity was mentioned.
    pub fn is_empty(&self) -> (b: bool)
        requires
            self.wf(),
        ensures
            b <==> self@.dom().is_empty(),
    {
        if self.entries.len() == 0 {
            assert(self@.dom() =~= Set::<Seq<char>>::empty());
            true
        } else {
            proof {
                self.lemma_lookup(0);
            }
            false
        }
    }

    /// The mention count of `name`, if it was mentioned.
    pub fn get(&self, name: &str) -> (res: Option<&u32>)
        requires
            self.wf(),
        ensures
            match res {
                Some(c) => self@.contains_key(name@) && self@[name@] == *c as nat,
                None => !self@.contains_key(name@),
            },
    {
        let key = String::from_str(name);
        let mut i: usize = 0;
        while i < self.entries.len()
            invariant
                self.wf(),
                i <= self.entries@.len(),
                key@ == name@,
                forall|j: int| 0 <= j < i ==> self.entries@[j].0@ != name@,
            decreases self.entries.len() - i,
        {
            if self.entries[i].0 == key {
                proof {
                    self.lemma_lookup(i as int);
                }
                return Some(&self.entries[i].1);
            }
            i += 1;
        }
        None
    }

    /// The names and counts, each name once, in order of first mention.
    pub fn entries(&self) -> (res: &Vec<(String, u32)>)
        ensures
            res@ == self.spec_entries(),
    {
        &self.entries
    }

    /// The stored names are exactly the mentioned ones, each once.
    pub proof fn lemma_entries_cover(&self)
        requires
            self.wf(),
        ensures
            forall|i: int|
                0 <= i < self.spec_entries().len() ==> self@.contains_key(
                    (#[trigger] self.spec_entries()[i]).0@,
                ),
            forall|n: Seq<char>|
                #[trigger] self@.contains_key(n) ==> exists|i: int|
                    0 <= i < self.spec_entries().len() && self.spec_entries()[i].0@ == n,
            forall|i: int, j: int|
                0 <= i < j < self.spec_entries().len() ==> self.spec_entries()[i].0@
                    != self.spec_entries()[j].0@,
    {
        assert forall|i: int| 0 <= i < self.spec_entries().len() implies self@.contains_key(
            (#[trigger] self.spec_entries()[i]).0@,
        ) by {
            self.lemma_lookup(i);
        }
        assert forall|n: Seq<char>| #[trigger] self@.contains_key(n) implies exists|i: int|
            0 <= i < self.spec_entries().len() && self.spec_entries()[i].0@ == n by {
            assert(self@.dom().contains(n));
            assert(exists|i: int| 0 <= i < self.entries@.len() && self.entries@[i].0@ == n);
            let i = choose|i: int| 0 <= i < self.entries@.len() && self.entries@[i].0@ == n;
            assert(self.spec_entries()[i].0@ == n);
        }
    }
}

// ── Parsing ──────────────────────────────────────────────────────────

fn chars_of(s: &str) -> (v: Vec<char>)
    ensures
        v@ == s@,
{
    str_chars(s)
}

/// The entity named by the link text `t[from..to]`.
fn parse_wikilink(t: &[char], from: usize, to: usize) -> (res: Option<String>)
    requires
        from <= to <= t@.len(),
    ensures
        match res {
            Some(s) => parse_wikilink_spec(t@.subrange(from as int, to as int)) == Some(s@),
            None => parse_wikilink_spec(t@.subrange(from as int, to as int)) is None,
        },
{
    let ghost link = t@.subrange(from as int, to as int);
    let (a, b) = trim_range(t, from, to);
    if a == b || t[a] == ':' {
        proof {
            if a < b {
                assert(trim(link)[0] == t@[a as int]);
            }
        }
        return None;
    }
    proof {
        assert(trim(link)[0] == t@[a as int]);
    }
    let target_end = find_char_in(t, '|', a, b);
    let page_end = find_char_in(t, '#', a, target_end);
    proof {
        v_sub_sub(t@, a as int, b as int, target_end as int);
    }
    let (p, q) = trim_range(t, a, page_end);
    let ghost page = t@.subrange(p as int, q as int);
    assert(page == trim(before_char(before_char(trim(link), '|'), '#')));
    if p == q || utf8_len_exceeds(t, p, q, 200) {
        return None;
    }
    let colon = chars_of(":");
    let file = chars_of("File");
    let image = chars_of("Image");
    let category = chars_of("Category");
    let page_v = slice_vec(t, p, q);
    proof {
        reveal_strlit(":");
        assert(colon@ =~= seq![':']);
        assert(page_v@ == page);
    }
    if contains_exec(page_v.as_slice(), colon.as_slice()) && (starts_with_exec(
        page_v.as_slice(),
        file.as_slice(),
    ) || starts_with_exec(page_v.as_slice(), image.as_slice()) || starts_with_exec(
        page_v.as_slice(),
        category.as_slice(),
    )) {
        return None;
    }
    Some(string_from_chars(page_v.as_slice()))
}

proof fn v_sub_sub(v: Seq<char>, a: int, b: int, e: int)
    requires
        0 <= a <= e <= b <= v.len(),
    ensures
        v.subrange(a, b).subrange(0, e - a) == v.subrange(a, e),
{
    assert(v.subrange(a, b).subrange(0, e - a) =~= v.subrange(a, e));
}

fn slice_vec(t: &[char], from: usize, to: usize) -> (v: Vec<char>)
    requires
        from <= to <= t@.len(),
    ensures
        v@ == t@.subrange(from as int, to as int),
{
    let mut v: Vec<char> = Vec::new();
    let mut i = from;
    while i < to
        invariant
            from <= i <= to <= t@.len(),
            v@ == t@.subrange(from as int, i as int),
        decreases to - i,
    {
        v.push(t[i]);
        assert(t@.subrange(from as int, i + 1) =~= t@.subrange(from as int, i as int).push(
            t@[i as int],
        ));
        i += 1;
    }
    v
}

/// The position of the `]]` closing a link whose text starts at `start`.
fn find_close(t: &[char], start: usize) -> (res: Option<usize>)
    ensures
        match res {
            Some(c) => close_at(t@, start as int, 1) == Some(c as int) && start <= c && c + 1
                < t@.len(),
            None => close_at(t@, start as int, 1) is None,
        },
{
    let mut pos = start;
    let mut depth: usize = 1;
    while pos < t.len() && pos + 1 < t.len()
        invariant
            start <= pos,
            1 <= depth <= pos - start + 1,
            close_at(t@, start as int, 1) == close_at(t@, pos as int, depth as int),
        decreases t.len() - pos,
    {
        if t[pos] == ']' && t[pos + 1] == ']' {
            if depth == 1 {
                return Some(pos);
            }
            depth -= 1;
            pos += 1;
        } else if t[pos] == '[' && t[pos + 1] == '[' {
            depth += 1;
            pos += 2;
        } else {
            pos += 1;
        }
    }
    None
}

/// Close positions never precede the scan position.
proof fn lemma_close_after(t: Seq<char>, pos: int, depth: int)
    ensures
        close_at(t, pos, depth) matches Some(c) ==> pos <= c && c + 1 < t.len(),
    decreases t.len() - pos,
{
    if 0 <= pos && pos + 1 < t.len() {
        if pair_at(t, pos, ']') {
            if depth > 1 {
                lemma_close_after(t, pos + 1, depth - 1);
            }
        } else if pair_at(t, pos, '[') {
            lemma_close_after(t, pos + 2, depth + 1);
        } else {
            lemma_close_after(t, pos + 1, depth);
        }
    }
}

/// Extract entity mentions from markdown `[[wikilinks]]`: entity name and
/// mention count. `[[Page]]`, `[[Page|display]]`, `[[Page#section]]` and
/// `[[Page#section|display]]` all name `Page`.
pub fn extract_wikilinks(text: &str) -> (res: WikilinkCounts)
    ensures
        res.wf(),
        res@ == mention_map(wikilink_names(text@)),
{
    let t = str_chars(text);
    let n = t.len();
    let mut counts = WikilinkCounts { entries: Vec::new() };
    let ghost mut done: Seq<Seq<char>> = seq![];
    let mut pos: usize = 0;
    proof {
        assert(counts@ =~= mention_map(names_of(done)));
    }
    while pos < n && pos + 1 < n
        invariant
            n == t@.len(),
            t@ == text@,
            done + link_texts_from(t@, pos as int) == link_texts_from(t@, 0),
            done.len() <= pos,
            counts.wf(),
            counts@ == mention_map(names_of(done)),
        decreases n - pos,
    {
        if t[pos] == '[' && t[pos + 1] == '[' {
            let start = pos + 2;
            proof {
                lemma_close_after(t@, start as int, 1);
            }
            match find_close(t.as_slice(), start) {
                Some(c) => {
                    let ghost link = t@.subrange(start as int, c as int);
                    proof {
                        assert(link_texts_from(t@, pos as int) == seq![link] + link_texts_from(
                            t@,
                            c + 2,
                        ));
                        assert(done + seq![link] + link_texts_from(t@, c + 2) =~= done
                            + link_texts_from(t@, pos as int));
                    }
                    let name = parse_wikilink(t.as_slice(), start, c);
                    let ghost old_done = done;
                    proof {
                        done = done.push(link);
                        assert(done.drop_last() =~= old_done);
                    }
                    match name {
                        Some(nm) => {
                            add_mention(&mut counts, nm, Ghost(names_of(old_done)));
                            proof {
                                assert(names_of(done) =~= names_of(old_done).push(
                                    parse_wikilink_spec(link)->0,
                                ));
                            }
                        },
                        None => {
                            proof {
                                assert(names_of(done) =~= names_of(old_done));
                            }
                        },
                    }
                    pos = c + 2;
                },
                None => {
                    proof {
                        assert(link_texts_from(t@, pos as int) =~= seq![]);
                        assert(done =~= link_texts_from(t@, 0));
                    }
                    pos = n;
                },
            }
        } else {
            pos += 1;
        }
    }
    proof {
        assert(link_texts_from(t@, pos as int) =~= seq![]);
        assert(done =~= link_texts_from(t@, 0));
    }
    counts
}

/// Records one more mention of `name`.
fn add_mention(counts: &mut WikilinkCounts, name: String, Ghost(names): Ghost<Seq<Seq<char>>>)
    requires
        old(counts).wf(),
        old(counts)@ == mention_map(names),
    ensures
        final(counts).wf(),
        final(counts)@ == mention_map(names.push(name@)),
{
    let ghost new_names = names.push(name@);
    assert forall|m: Seq<char>| #![auto]
        mention_count(new_names, m) == mention_count(names, m) + if m == name@ {
            1nat
        } else {
            0nat
        } by {
        assert(new_names.drop_last() =~= names);
    }
    let mut i: usize = 0;
    while i < counts.entries.len()
        invariant
            i <= counts.entries@.len(),
            *counts == *old(counts),
            old(counts).wf(),
            old(counts)@ == mention_map(names),
            new_names == names.push(name@),
            forall|j: int| 0 <= j < i ==> counts.entries@[j].0@ != name@,
        decreases counts.entries.len() - i,
    {
        if counts.entries[i].0 == name {
            let ghost before = counts.entries@;
            let c = counts.entries[i].1;
            proof {
                old(counts).lemma_lookup(i as int);
            }
            let next = if c < u32::MAX {
                c + 1
            } else {
                c
            };
            let entry = (name, next);
            counts.entries.set(i, entry);
            proof {
                assert forall|j: int, k: int|
                    0 <= j < k < counts.entries@.len() implies counts.entries@[j].0@
                    != counts.entries@[k].0@ by {
                    assert(before[j].0@ != before[k].0@);
                }
                assert(counts@ =~= mention_map(new_names)) by {
                    assert forall|m: Seq<char>| #![auto]
                        counts@.contains_key(m) == mention_map(new_names).contains_key(m) by {
                        assert(new_names.drop_last() =~= names);
                        if counts@.contains_key(m) {
                            let k = choose|k: int|
                                0 <= k < counts.entries@.len() && counts.entries@[k].0@ == m;
                            if k != i {
                                old(counts).lemma_lookup(k);
                            }
                        }
                        if mention_map(new_names).contains_key(m) && m != name@ {
                            assert(new_names.drop_last() =~= names);
                            assert(mention_count(names, m) > 0);
                            assert(old(counts)@.contains_key(m));
                            let k = choose|k: int|
                                0 <= k < before.len() && before[k].0@ == m;
                            assert(counts.entries@[k].0@ == m);
                        }
                        if m == name@ {
                            assert(counts.entries@[i as int].0@ == m);
                        }
                    }
                    assert forall|m: Seq<char>| #![auto]
                        counts@.contains_key(m) implies counts@[m] == mention_map(
                        new_names,
                    )[m] by {
                        let k = choose|k: int|
                            0 <= k < counts.entries@.len() && counts.entries@[k].0@ == m;
                        counts.lemma_lookup(k);
                        assert(new_names.drop_last() =~= names);
                        if k != i {
                            old(counts).lemma_lookup(k);
                        }
                    }
                }
            }
            return;
        }
        i += 1;
    }
    let ghost before = counts.entries@;
    counts.entries.push((name, 1));
    proof {
        assert forall|j: int, k: int|
            0 <= j < k < counts.entries@.len() implies counts.entries@[j].0@
            != counts.entries@[k].0@ by {
            if k < before.len() {
                assert(before[j].0@ != before[k].0@);
            }
        }
        assert(!old(counts)@.contains_key(name@));
        assert(counts@ =~= mention_map(new_names)) by {
            assert forall|m: Seq<char>| #![auto]
                counts@.contains_key(m) == mention_map(new_names).contains_key(m) by {
                if counts@.contains_key(m) {
                    let k = choose|k: int|
                        0 <= k < counts.entries@.len() && counts.entries@[k].0@ == m;
                    if k < before.len() {
                        old(counts).lemma_lookup(k);
                    }
                }
                if mention_map(new_names).contains_key(m) && m != name@ {
                    assert(old(counts)@.contains_key(m));
                    let k = choose|k: int| 0 <= k < before.len() && before[k].0@ == m;
                    assert(counts.entries@[k].0@ == m);
                }
                if m == name@ {
                    assert(counts.entries@[before.len() as int].0@ == m);
                }
            }
            assert forall|m: Seq<char>| #![auto]
                counts@.contains_key(m) implies counts@[m] == mention_map(new_names)[m] by {
                let k = choose|k: int| 0 <= k < counts.entries@.len() && counts.entries@[k].0@ == m;
                counts.lemma_lookup(k);
                if k < before.len() {
                    old(counts).lemma_lookup(k);
                }
            }
        }
    }
}

// ── Entities of stored files ─────────────────────────────────────────

/// The document id of a stored file: its name without `.md`, then without
/// `.txt`.
pub open spec fn stored_file_id(filename: Seq<char>) -> Seq<char> {
    trim_suffix_all(trim_suffix_all(filename, ".md"@), ".txt"@)
}

/// Some pair of `es` names `n`.
pub open spec fn names_entity(es: Seq<(String, String)>, n: Seq<char>) -> bool {
    exists|k: int| 0 <= k < es.len() && es[k].1@ == n
}

/// The entities a stored file links to: its document id, and for each
/// entity it names (once each, in order of first mention) the entity id and
/// the name; `None` when it links to none.
pub fn file_entities(filename: &str, content: &str) -> (r: Option<(String, Vec<(String, String)>)>)
    ensures
        r is None <==> mention_map(wikilink_names(content@)).dom().is_empty(),
        match r {
            Some(p) => p.0@ == stored_file_id(filename@),
            None => true,
        },
        match r {
            Some(p) => forall|k: int|
                0 <= k < p.1@.len() ==> mention_map(wikilink_names(content@)).contains_key(
                    (#[trigger] p.1@[k]).1@,
                ) && p.1@[k].0@ == wiki_entity_id(p.1@[k].1@),
            None => true,
        },
        match r {
            Some(p) => forall|n: Seq<char>|
                #[trigger] mention_map(wikilink_names(content@)).contains_key(n) ==> names_entity(
                    p.1@,
                    n,
                ),
            None => true,
        },
        match r {
            Some(p) => forall|i: int, j: int| 0 <= i < j < p.1@.len() ==> p.1@[i].1@ != p.1@[j].1@,
            None => true,
        },
{
    let links = extract_wikilinks(content);
    if links.is_empty() {
        return None;
    }
    proof {
        links.lemma_entries_cover();
    }
    let f = str_chars(filename);
    let md = str_chars(".md");
    let txt = str_chars(".txt");
    let n1 = trim_suffix_all_exec(f.as_slice(), md.as_slice());
    let head = &f.as_slice()[0..n1];
    let n2 = trim_suffix_all_exec(head, txt.as_slice());
    proof {
        reveal_strlit(".md");
        reveal_strlit(".txt");
        assert(head@ == f@.subrange(0, n1 as int));
        assert(head@.subrange(0, n2 as int) =~= f@.subrange(0, n2 as int));
    }
    let id = string_from_range(head, 0, n2);
    let entries = links.entries();
    let mut es: Vec<(String, String)> = Vec::new();
    let mut k: usize = 0;
    while k < entries.len()
        invariant
            k <= entries@.len(),
            entries@ == links.spec_entries(),
            es@.len() == k,
            forall|q: int|
                0 <= q < k ==> (#[trigger] es@[q]).1@ == entries@[q].0@ && es@[q].0@
                    == wiki_entity_id(es@[q].1@),
        decreases entries.len() - k,
    {
        let name = entries[k].0.clone();
        let eid = wiki_id(name.as_str());
        es.push((eid, name));
        k += 1;
    }
    proof {
        assert forall|q: int| 0 <= q < es@.len() implies mention_map(wikilink_names(content@)).contains_key(
            (#[trigger] es@[q]).1@,
        ) && es@[q].0@ == wiki_entity_id(es@[q].1@) by {
            assert(es@[q].1@ == links.spec_entries()[q].0@);
        }
        assert forall|i: int, j: int| 0 <= i < j < es@.len() implies es@[i].1@ != es@[j].1@ by {
            assert(es@[i].1@ == links.spec_entries()[i].0@);
            assert(es@[j].1@ == links.spec_entries()[j].0@);
        }
        assert forall|n: Seq<char>| #[trigger] links@.contains_key(n) implies exists|q: int|
            0 <= q < es@.len() && es@[q].1@ == n by {
            let i = choose|i: int| 0 <= i < links.spec_entries().len() && links.spec_entries()[i].0@
                == n;
            assert(es@[i].1@ == n);
        }
    }
    Some((id, es))
}

// ── Laws ─────────────────────────────────────────────────────────────

proof fn lemma_trim_keeps_free(s: Seq<char>, c: char)
    requires
        forall|i: int| 0 <= i < s.len() ==> s[i] != c,
    ensures
        forall|i: int| 0 <= i < trim(s).len() ==> #[trigger] trim(s)[i] != c,
        trim(s).len() > 0 ==> !is_ws(trim(s)[0]) && !is_ws(trim(s).last()),
{
    crate::text::lemma_trim_start_suffix(s);
    let t = crate::text::trim_start(s);
    crate::text::lemma_trim_end_prefix(t);
    assert forall|i: int| 0 <= i < trim(s).len() implies #[trigger] trim(s)[i] != c by {
        assert(trim(s)[i] == t[i]);
        assert(t[i] == s[s.len() - t.len() + i]);
    }
    if trim(s).len() > 0 {
        assert(trim(s)[0] == t[0]);
    }
}

/// The entity a link names is a real page name: not empty, without
/// whitespace at either end (`[[ Page | shown ]]` names `Page`), and
/// holding neither the `|` that starts the shown text nor the `#` that
/// starts a section.
pub proof fn lemma_link_name_is_trimmed_page(link: Seq<char>)
    ensures
        parse_wikilink_spec(link) matches Some(p) ==> {
            &&& p.len() > 0
            &&& !is_ws(p[0])
            &&& !is_ws(p[p.len() - 1])
            &&& forall|i: int| 0 <= i < p.len() ==> #[trigger] p[i] != '|' && p[i] != '#'
        },
{
    let l = trim(link);
    let a = before_char(l, '|');
    let b = before_char(a, '#');
    crate::text::lemma_before_char_free(l, '|');
    crate::text::lemma_before_char_free(a, '#');
    assert forall|i: int| 0 <= i < b.len() implies b[i] != '|' by {
        assert(b[i] == a[i]);
    }
    lemma_trim_keeps_free(b, '|');
    lemma_trim_keeps_free(b, '#');
}

proof fn lemma_names_are_pages(texts: Seq<Seq<char>>)
    ensures
        forall|k: int|
            0 <= k < names_of(texts).len() ==> exists|j: int|
                0 <= j < texts.len() && parse_wikilink_spec(texts[j]) == Some(#[trigger] names_of(texts)[k]),
    decreases texts.len(),
{
    if texts.len() > 0 {
        let prev = texts.drop_last();
        lemma_names_are_pages(prev);
        let ns = names_of(texts);
        assert forall|k: int| 0 <= k < ns.len() implies exists|j: int|
            0 <= j < texts.len() && parse_wikilink_spec(texts[j]) == Some(#[trigger] ns[k]) by {
            if k < names_of(prev).len() {
                assert(ns[k] == names_of(prev)[k]);
                let j = choose|j: int| 0 <= j < prev.len() && parse_wikilink_spec(prev[j]) == Some(names_of(prev)[k]);
                assert(texts[j] == prev[j]);
            } else {
                assert(parse_wikilink_spec(texts[texts.len() - 1]) == Some(ns[k]));
            }
        }
    }
}

proof fn lemma_counted_is_listed(names: Seq<Seq<char>>, n: Seq<char>)
    requires
        mention_count(names, n) > 0,
    ensures
        exists|k: int| 0 <= k < names.len() && names[k] == n,
    decreases names.len(),
{
    if names.last() != n {
        lemma_counted_is_listed(names.drop_last(), n);
        let k = choose|k: int| 0 <= k < names.len() - 1 && names.drop_last()[k] == n;
        assert(names[k] == n);
    } else {
        assert(names[names.len() - 1] == n);
    }
}

/// Every entity that `extract_wikilinks` reports for a text is a page
/// name as a link gives it: trimmed at both ends, not empty, free of `|`
/// and `#`.
pub proof fn lemma_extracted_entities_are_trimmed(text: Seq<char>, n: Seq<char>)
    requires
        mention_map(wikilink_names(text)).dom().contains(n),
    ensures
        n.len() > 0,
        !is_ws(n[0]),
        !is_ws(n[n.len() - 1]),
        forall|i: int| 0 <= i < n.len() ==> #[trigger] n[i] != '|' && n[i] != '#',
{
    let texts = link_texts_from(text, 0);
    lemma_counted_is_listed(wikilink_names(text), n);
    let k = choose|k: int| 0 <= k < wikilink_names(text).len() && wikilink_names(text)[k] == n;
    lemma_names_are_pages(texts);
    let j = choose|j: int| 0 <= j < texts.len() && parse_wikilink_spec(texts[j]) == Some(names_of(texts)[k]);
    lemma_link_name_is_trimmed_page(texts[j]);
}

} // verus!
