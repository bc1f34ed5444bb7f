//! Entities of the knowledge graph and short fact questions about them
//! ("population of Paris", "capital France").
use vstd::prelude::*;
use crate::text::{
    char_len_utf8, find, find_exec, join_words, lemma_find, lowercase, occurs_at, pieces,
    str_chars, string_from_range, to_lowercase, trim, trim_range, underscore_spaces, underscored,
    utf8_len, word_ranges, words,
};

verus! {

// ── Entities ─────────────────────────────────────────────────────────

/// An entity row of the catalog.
#[derive(Debug, Clone)]
pub struct EntityInfo {
    pub id: String,
    pub canonical_name: String,
    pub description: Option<String>,
    /// JSON list of type names.
    pub entity_types: String,
    /// JSON map of external ids.
    pub external_ids: String,
    pub mention_count: i64,
}

/// A relation of an entity, as the catalog lists it (its confidence stays
/// with the catalog).
#[derive(Debug, Clone)]
pub struct RelationInfo {
    pub predicate: String,
    pub target_name: String,
}

/// The id of the entity a `[[wikilink]]` names: `wiki:` and the lower-cased
/// name with spaces turned into `_`.
pub open spec fn wiki_entity_id(name: Seq<char>) -> Seq<char> {
    "wiki:"@ + underscored(lowercase(name))
}

/// The id of a person known by name: `person:` and the lower-cased name
/// with spaces turned into `_`.
pub open spec fn person_entity_id(name: Seq<char>) -> Seq<char> {
    "person:"@ + underscored(lowercase(name))
}

/// The id of an email contact: like a person's, with `<`, `>` and `@` also
/// turned into `_`.
pub open spec fn contact_entity_id(name: Seq<char>) -> Seq<char> {
    "person:"@ + underscored(lowercase(name)).map_values(
        |c: char| if c == '<' || c == '>' || c == '@' { '_' } else { c },
    )
}

/// The entity id for a wikilink name.
pub fn wiki_id(name: &str) -> (r: String)
    ensures
        r@ == wiki_entity_id(name@),
{
    let lower = to_lowercase(name);
    let mut r = String::from_str("wiki:");
    r.append(underscore_spaces(lower.as_str()).as_str());
    proof {
        reveal_strlit("wiki:");
    }
    r
}

/// The entity id for a person's name.
pub fn person_id(name: &str) -> (r: String)
    ensures
        r@ == person_entity_id(name@),
{
    let lower = to_lowercase(name);
    let mut r = String::from_str("person:");
    r.append(underscore_spaces(lower.as_str()).as_str());
    proof {
        reveal_strlit("person:");
    }
    r
}

/// The entity id for an email contact.
pub fn contact_id(name: &str) -> (r: String)
    ensures
        r@ == contact_entity_id(name@),
{
    let lower = to_lowercase(name);
    let u = str_chars(underscore_spaces(lower.as_str()).as_str());
    let mut r = String::from_str("person:");
    let mut i: usize = 0;
    let ghost base = r@;
    while i < u.len()
        invariant
            i <= u@.len(),
            r@ == base + u@.take(i as int).map_values(
                |c: char| if c == '<' || c == '>' || c == '@' { '_' } else { c },
            ),
        decreases u.len() - i,
    {
        let c = u[i];
        crate::text::string_push(&mut r, if c == '<' || c == '>' || c == '@' { '_' } else { c });
        assert(u@.take(i + 1).map_values(
            |c: char| if c == '<' || c == '>' || c == '@' { '_' } else { c },
        ) =~= u@.take(i as int).map_values(
            |c: char| if c == '<' || c == '>' || c == '@' { '_' } else { c },
        ).push(if c == '<' || c == '>' || c == '@' { '_' } else { c }));
        i += 1;
    }
    assert(u@.take(u@.len() as int) =~= u@);
    proof {
        reveal_strlit("person:");
    }
    r
}

/// Every unordered pair of the first `n` positions, `(i, j)` with `i < j`,
/// in the order of two nested loops.
pub open spec fn pairs_from(i: int, n: int) -> Seq<(usize, usize)>
    decreases n - i,
{
    if i >= n {
        seq![]
    } else {
        Seq::new((n - i - 1) as nat, |t: int| (i as usize, (i + 1 + t) as usize)) + pairs_from(
            i + 1,
            n,
        )
    }
}

/// The co-occurrence pairs among `n` entities of one document.
pub fn co_occurrence_pairs(n: usize) -> (r: Vec<(usize, usize)>)
    ensures
        r@ == pairs_from(0, n as int),
{
    let mut r: Vec<(usize, usize)> = Vec::new();
    let mut i: usize = 0;
    while i < n
        invariant
            i <= n,
            r@ + pairs_from(i as int, n as int) == pairs_from(0, n as int),
        decreases n - i,
    {
        let ghost start = r@;
        let mut j = i + 1;
        while j < n
            invariant
                i < n,
                i + 1 <= j <= n,
                r@ == start + Seq::new((j - i - 1) as nat, |t: int| (i as usize, (i + 1 + t) as usize)),
            decreases n - j,
        {
            r.push((i, j));
            assert(Seq::new((j + 1 - i - 1) as nat, |t: int| (i as usize, (i + 1 + t) as usize))
                =~= Seq::new((j - i - 1) as nat, |t: int| (i as usize, (i + 1 + t) as usize)).push(
                (i, j),
            ));
            j += 1;
        }
        assert(r@ + pairs_from(i + 1, n as int) =~= start + pairs_from(i as int, n as int));
        i += 1;
    }
    assert(r@ + pairs_from(n as int, n as int) =~= r@);
    r
}

// ── Fact questions ───────────────────────────────────────────────────

/// An answer from the knowledge graph.
#[derive(Debug, Clone)]
pub struct FactAnswer {
    pub answer: String,
    pub entity: Option<String>,
    pub property: Option<String>,
    pub source: Option<String>,
}

/// `b` is the UTF-8 length of a prefix of `s`: a character boundary.
pub open spec fn byte_boundary(s: Seq<char>, b: int) -> bool {
    exists|k: int| 0 <= k <= s.len() && #[trigger] utf8_len(s.take(k)) == b
}

/// The number of characters of `s` that take `b` bytes.
pub open spec fn char_at_byte(s: Seq<char>, b: int) -> int {
    choose|k: int| 0 <= k <= s.len() && #[trigger] utf8_len(s.take(k)) == b
}

proof fn lemma_utf8_take_step(s: Seq<char>, k: int)
    requires
        0 <= k < s.len(),
    ensures
        utf8_len(s.take(k + 1)) == utf8_len(s.take(k)) + crate::text::char_utf8_len(s[k]),
        utf8_len(s.take(k + 1)) > utf8_len(s.take(k)),
{
    assert(s.take(k + 1).drop_last() =~= s.take(k));
}

proof fn lemma_utf8_take_strict(s: Seq<char>, i: int, j: int)
    requires
        0 <= i < j <= s.len(),
    ensures
        utf8_len(s.take(i)) < utf8_len(s.take(j)),
    decreases j - i,
{
    lemma_utf8_take_step(s, j - 1);
    if i < j - 1 {
        lemma_utf8_take_strict(s, i, j - 1);
    }
}

/// The UTF-8 length of `v[..k]`.
fn utf8_prefix_len(v: &[char], k: usize) -> (n: u128)
    requires
        k <= v@.len(),
    ensures
        n == utf8_len(v@.take(k as int)),
        n <= 4 * k,
{
    let mut n: u128 = 0;
    let mut i: usize = 0;
    while i < k
        invariant
            i <= k <= v@.len(),
            n == utf8_len(v@.take(i as int)),
            n <= 4 * i,
        decreases k - i,
    {
        proof {
            lemma_utf8_take_step(v@, i as int);
        }
        n = n + char_len_utf8(v[i]) as u128;
        i += 1;
    }
    n
}

/// The number of characters of `v` that take `b` bytes, if `b` falls on a
/// character boundary.
fn char_index_at_byte(v: &[char], b: u128) -> (r: Option<usize>)
    ensures
        match r {
            Some(k) => byte_boundary(v@, b as int) && k == char_at_byte(v@, b as int),
            None => !byte_boundary(v@, b as int),
        },
{
    let mut n: u128 = 0;
    let mut i: usize = 0;
    while i <= v.len()
        invariant
            i <= v@.len() + 1,
            i <= v@.len() ==> n == utf8_len(v@.take(i as int)),
            n <= 4 * i,
            forall|k: int| 0 <= k < i && k <= v@.len() ==> utf8_len(#[trigger] v@.take(k)) < b,
        decreases v@.len() + 1 - i,
    {
        if n == b {
            proof {
                assert(utf8_len(v@.take(i as int)) == b);
                assert(byte_boundary(v@, b as int));
                let c = char_at_byte(v@, b as int);
                if c < i {
                    assert(utf8_len(v@.take(c)) < b);
                } else if c > i {
                    lemma_utf8_take_strict(v@, i as int, c);
                }
            }
            return Some(i);
        }
        if n > b || i == v.len() {
            proof {
                assert forall|k: int| 0 <= k <= v@.len() implies #[trigger] utf8_len(v@.take(k))
                    != b by {
                    if k > i {
                        lemma_utf8_take_strict(v@, i as int, k);
                    }
                }
            }
            return None;
        }
        proof {
            lemma_utf8_take_step(v@, i as int);
        }
        n = n + char_len_utf8(v[i]) as u128;
        i += 1;
    }
    None
}

/// The first item of `ws`, or nothing.
pub open spec fn first_or_empty(ws: Seq<Seq<char>>) -> Seq<char> {
    if ws.len() > 0 {
        ws[0]
    } else {
        seq![]
    }
}

/// The character position in `q` at which the text after `" of "` starts,
/// found through the byte offset of `" of "` in the lower-cased `l`.
pub open spec fn entity_start(q: Seq<char>, l: Seq<char>, p: int) -> int {
    char_at_byte(q, (utf8_len(l.take(p)) + 4) as int)
}

/// Where the text after `" of "` in `l` starts in `q`, counted in bytes,
/// is a character boundary of `q` (otherwise slicing `q` there fails).
pub open spec fn entity_start_ok(q: Seq<char>, l: Seq<char>) -> bool {
    match find(l, " of "@) {
        Some(p) => byte_boundary(q, (utf8_len(l.take(p)) + 4) as int),
        None => true,
    }
}

/// The entity name and property hint of question `q`, whose lower-cased
/// form is `l`: for `"<property> of <entity>"` the text after the first
/// `" of "` (trimmed) and the lower-cased text before it (trimmed);
/// otherwise the words after the first, joined by spaces, and the first
/// lower-cased word. A single word names nothing.
pub open spec fn fact_parts(q: Seq<char>, l: Seq<char>) -> Option<(Seq<char>, Seq<char>)> {
    match find(l, " of "@) {
        Some(p) => Some(
            (trim(q.subrange(entity_start(q, l, p), q.len() as int)), trim(l.take(p))),
        ),
        None => {
            let w = words(q);
            if w.len() >= 2 {
                Some((join_words(w.subrange(1, w.len() as int)), first_or_empty(words(l))))
            } else {
                None
            }
        },
    }
}

fn join_ranges(v: &[char], ranges: &Vec<(usize, usize)>, from: usize) -> (r: String)
    requires
        from <= ranges@.len(),
        forall|i: int| 0 <= i < ranges@.len() ==> (#[trigger] ranges@[i]).0 <= ranges@[i].1 <= v@.len(),
    ensures
        r@ == join_words(pieces(v@, ranges@).subrange(from as int, ranges@.len() as int)),
{
    let mut r = String::new();
    let mut i = from;
    while i < ranges.len()
        invariant
            from <= i <= ranges@.len(),
            forall|j: int|
                0 <= j < ranges@.len() ==> (#[trigger] ranges@[j]).0 <= ranges@[j].1 <= v@.len(),
            r@ == join_words(pieces(v@, ranges@).subrange(from as int, i as int)),
        decreases ranges.len() - i,
    {
        let (a, b) = ranges[i];
        let ghost ws = pieces(v@, ranges@).subrange(from as int, i + 1);
        assert(ws.drop_last() =~= pieces(v@, ranges@).subrange(from as int, i as int));
        assert(ws.last() == v@.subrange(a as int, b as int));
        if i > from {
            crate::text::string_push(&mut r, ' ');
        } else {
            assert(ws.len() == 1);
        }
        crate::text::push_range(&mut r, v, a, b);
        i += 1;
    }
    r
}

/// The entity name and property hint of a question, given its lower-cased
/// form `lower`.
pub fn fact_query_parts(query: &str, lower: &str) -> (r: Option<(String, String)>)
    requires
        entity_start_ok(query@, lower@),
    ensures
        match fact_parts(query@, lower@) {
            Some((e, h)) => r matches Some((a, b)) && a@ == e && b@ == h,
            None => r is None,
        },
{
    let q = str_chars(query);
    let l = str_chars(lower);
    let pat = str_chars(" of ");
    proof {
        reveal_strlit(" of ");
    }
    match find_exec(l.as_slice(), pat.as_slice()) {
        Some(p) => {
            proof {
                lemma_find(l@, pat@);
            }
            let lb = utf8_prefix_len(l.as_slice(), p);
            let start = match char_index_at_byte(q.as_slice(), lb + 4) {
                Some(k) => k,
                None => {
                    return None;
                },
            };
            let (a, b) = trim_range(q.as_slice(), start, q.len());
            let (c, d) = trim_range(l.as_slice(), 0, p);
            assert(l@.subrange(0, p as int) =~= l@.take(p as int));
            Some((string_from_range(q.as_slice(), a, b), string_from_range(l.as_slice(), c, d)))
        },
        None => {
            let qw = word_ranges(q.as_slice());
            if qw.len() < 2 {
                return None;
            }
            let entity = join_ranges(q.as_slice(), &qw, 1);
            let lw = word_ranges(l.as_slice());
            let hint = if lw.len() > 0 {
                let (a, b) = lw[0];
                string_from_range(l.as_slice(), a, b)
            } else {
                String::new()
            };
            Some((entity, hint))
        },
    }
}

/// The entity name and property hint of a question: `None` when it names
/// no entity, and also when the text after `" of "` does not start on a
/// character boundary of the question.
pub fn fact_query(query: &str) -> (r: Option<(String, String)>)
    ensures
        entity_start_ok(query@, lowercase(query@)) ==> match fact_parts(
            query@,
            lowercase(query@),
        ) {
            Some((e, h)) => r matches Some((a, b)) && a@ == e && b@ == h,
            None => r is None,
        },
        !entity_start_ok(query@, lowercase(query@)) ==> r is None,
{
    let lower = to_lowercase(query);
    let q = str_chars(query);
    let l = str_chars(lower.as_str());
    let pat = str_chars(" of ");
    proof {
        reveal_strlit(" of ");
    }
    if let Some(p) = find_exec(l.as_slice(), pat.as_slice()) {
        proof {
            lemma_find(l@, pat@);
        }
        let lb = utf8_prefix_len(l.as_slice(), p);
        if char_index_at_byte(q.as_slice(), lb + 4).is_none() {
            return None;
        }
    }
    fact_query_parts(query, lower.as_str())
}

/// Either text contains the other.
pub open spec fn related(pred_lower: Seq<char>, hint: Seq<char>) -> bool {
    crate::text::contains(pred_lower, hint) || crate::text::contains(hint, pred_lower)
}

/// Whether a relation answers a question with property hint `hint`.
pub open spec fn relation_matches(r: RelationInfo, hint: Seq<char>) -> bool {
    related(lowercase(r.predicate@), hint)
}

/// The position of the first relation that answers the question, if any.
pub open spec fn first_match(rels: Seq<RelationInfo>, hint: Seq<char>) -> Option<int> {
    if exists|i: int| 0 <= i < rels.len() && relation_matches(#[trigger] rels[i], hint) {
        Some(
            choose|i: int|
                0 <= i < rels.len() && relation_matches(#[trigger] rels[i], hint) && forall|j: int|
                    0 <= j < i ==> !relation_matches(#[trigger] rels[j], hint),
        )
    } else {
        None
    }
}

/// The text of an optional string.
pub open spec fn text_of(o: Option<String>) -> Option<Seq<char>> {
    match o {
        Some(s) => Some(s@),
        None => None,
    }
}

/// `"<entity>: <predicate> → <target>"`
pub open spec fn relation_answer(e: Seq<char>, r: RelationInfo) -> Seq<char> {
    e + ": "@ + r.predicate@ + " → "@ + r.target_name@
}

/// Answers a fact question about `entity` from its relations: the first
/// relation whose lower-cased predicate contains the property hint or is
/// contained in it; failing that, the entity's description; failing that,
/// nothing.
pub fn fact_lookup(hint: &str, entity: &EntityInfo, relations: &[RelationInfo]) -> (r: Option<FactAnswer>)
    ensures
        match first_match(relations@, hint@) {
            Some(i) => r matches Some(a) && a.answer@ == relation_answer(
                entity.canonical_name@,
                relations@[i],
            ) && text_of(a.entity) == Some(entity.canonical_name@) && text_of(a.property) == Some(
                relations@[i].predicate@,
            ) && text_of(a.source) == Some("knowledge_graph"@),
            None => match entity.description {
                Some(d) => r matches Some(a) && a.answer@ == entity.canonical_name@ + ": "@ + d@
                    && text_of(a.entity) == Some(entity.canonical_name@) && a.property is None
                    && text_of(a.source) == Some("knowledge_graph"@),
                None => r is None,
            },
        },
{
    let h = str_chars(hint);
    let mut i: usize = 0;
    while i < relations.len()
        invariant
            i <= relations@.len(),
            h@ == hint@,
            forall|j: int| 0 <= j < i ==> !relation_matches(#[trigger] relations@[j], hint@),
        decreases relations.len() - i,
    {
        let rel = &relations[i];
        let pred_lower = to_lowercase(rel.predicate.as_str());
        let p = str_chars(pred_lower.as_str());
        if crate::text::contains_exec(p.as_slice(), h.as_slice()) || crate::text::contains_exec(
            h.as_slice(),
            p.as_slice(),
        ) {
            let mut answer = entity.canonical_name.clone();
            answer.append(": ");
            answer.append(rel.predicate.as_str());
            answer.append(" → ");
            answer.append(rel.target_name.as_str());
            proof {
                assert(relation_matches(relations@[i as int], hint@));
                let f = first_match(relations@, hint@)->0;
                if f < i {
                    assert(!relation_matches(relations@[f], hint@));
                }
                if f > i {
                    assert(!relation_matches(relations@[i as int], hint@));
                }
            }
            return Some(
                FactAnswer {
                    answer,
                    entity: Some(entity.canonical_name.clone()),
                    property: Some(rel.predicate.clone()),
                    source: Some(String::from_str("knowledge_graph")),
                },
            );
        }
        i += 1;
    }
    assert(first_match(relations@, hint@) is None);
    match &entity.description {
        Some(d) => {
            let mut answer = entity.canonical_name.clone();
            answer.append(": ");
            answer.append(d.as_str());
            Some(
                FactAnswer {
                    answer,
                    entity: Some(entity.canonical_name.clone()),
                    property: None,
                    source: Some(String::from_str("knowledge_graph")),
                },
            )
        },
        None => None,
    }
}

// ── Entity cards ─────────────────────────────────────────────────────

/// What `serde_json` reads from `text` as a list of strings.
pub uninterp spec fn json_string_list(text: Seq<char>) -> Option<Seq<Seq<char>>>;

/// The views of strings.
pub open spec fn strings_view(v: Seq<String>) -> Seq<Seq<char>> {
    v.map_values(|s: String| s@)
}

/// `serde_json::from_str::<Vec<String>>(text)`, `None` where it fails: the
/// named reading of `text`.
#[verifier::external_body]
fn parse_string_list(text: &str) -> (r: Option<Vec<String>>)
    ensures
        match r {
            Some(v) => json_string_list(text@) == Some(strings_view(v@)),
            None => json_string_list(text@) is None,
        },
{
    serde_json::from_str(text).ok()
}

/// An entity with its types, relations and mentioning documents.
#[derive(Debug, Clone)]
pub struct EntityCard {
    pub canonical_name: String,
    pub description: Option<String>,
    pub entity_types: Vec<String>,
    pub mention_count: i64,
    pub relations: Vec<RelationInfo>,
    pub documents: Vec<String>,
}

/// The types recorded for an entity: its JSON list, or none when that does
/// not read as a list of strings.
pub open spec fn entity_types_of(info: EntityInfo) -> Seq<Seq<char>> {
    match json_string_list(info.entity_types@) {
        Some(ts) => ts,
        None => seq![],
    }
}

/// The card of the entity the catalog found, with the relations and
/// documents listed for it (empty where they were not asked for); `None`
/// when no entity has the name.
pub fn entity_lookup(
    found: Option<EntityInfo>,
    relations: Option<Vec<RelationInfo>>,
    documents: Option<Vec<String>>,
) -> (r: Option<EntityCard>)
    ensures
        match found {
            None => r is None,
            Some(info) => r matches Some(c) && c.canonical_name@ == info.canonical_name@
                && c.description == info.description && c.mention_count == info.mention_count
                && strings_view(c.entity_types@) == entity_types_of(info) && c.relations@ == (
            match relations {
                Some(v) => v@,
                None => seq![],
            }) && strings_view(c.documents@) == (match documents {
                Some(v) => strings_view(v@),
                None => seq![],
            }),
        },
{
    let info = match found {
        Some(i) => i,
        None => {
            return None;
        },
    };
    let entity_types = match parse_string_list(info.entity_types.as_str()) {
        Some(v) => v,
        None => Vec::new(),
    };
    let relations = match relations {
        Some(v) => v,
        None => Vec::new(),
    };
    let documents = match documents {
        Some(v) => v,
        None => Vec::new(),
    };
    proof {
        assert(strings_view(Seq::<String>::empty()) =~= seq![]);
    }
    Some(
        EntityCard {
            canonical_name: info.canonical_name,
            description: info.description,
            entity_types,
            mention_count: info.mention_count,
            relations,
            documents,
        },
    )
}

} // verus!
