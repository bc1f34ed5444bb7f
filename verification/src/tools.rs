//! The tools shared by the command line, the MCP server and the HTTP API:
//! their inputs and outputs, and how each output is made from what the
//! stores returned.
use vstd::prelude::*;
use crate::facts::{EntityInfo, RelationInfo};
use crate::types::DataSource;

verus! {

/// The number of search results when none is asked for.
pub fn default_limit() -> (n: usize)
    ensures
        n == 20,
{
    20
}

/// A full-text search request.
#[derive(Debug, Clone)]
pub struct SearchInput {
    pub query: String,
    pub limit: usize,
    pub source: Option<String>,
    pub personal_only: bool,
    pub public_only: bool,
}

impl SearchInput {
    /// A request for `query` with the default limit and no filters.
    pub fn new(query: String) -> (r: SearchInput)
        ensures
            r.query@ == query@,
            r.limit == 20,
            r.source is None,
            !r.personal_only,
            !r.public_only,
    {
        SearchInput { query, limit: default_limit(), source: None, personal_only: false, public_only: false }
    }
}

/// A request to read one document.
#[derive(Debug, Clone)]
pub struct ReadInput {
    pub source: String,
    pub doc_id: String,
}

/// A document's content.
#[derive(Debug, Clone)]
pub struct ReadOutput {
    pub source: String,
    pub doc_id: String,
    pub content: String,
}

/// An entity request: which parts besides the card to include.
#[derive(Debug, Clone)]
pub struct EntityInput {
    pub name: String,
    pub relations: bool,
    pub documents: bool,
}

/// What is known of an entity.
#[derive(Debug, Clone)]
pub struct EntityCard {
    pub name: String,
    pub description: Option<String>,
    pub mention_count: i64,
    pub relations: Vec<RelationInfo>,
    pub documents: Vec<String>,
}

/// The answer to an entity request: the card when the entity is known,
/// otherwise names of similar entities.
#[derive(Debug, Clone)]
pub struct EntityOutput {
    pub found: bool,
    pub entity: Option<EntityCard>,
    pub suggestions: Vec<String>,
}

/// One source in a listing.
#[derive(Debug, Clone)]
pub struct SourceInfo {
    pub name: String,
    pub format: String,
    pub class: String,
    pub document_count: u64,
}

/// All sources.
#[derive(Debug, Clone)]
pub struct SourceListOutput {
    pub sources: Vec<SourceInfo>,
}

/// Counts over the whole knowledge base.
#[derive(Debug, Clone, Copy)]
pub struct StatusOutput {
    pub sources: usize,
    pub entities: u64,
    pub relations: u64,
    pub total_bytes: u64,
}

/// The text of a missing-document error.
pub open spec fn missing_document_text(doc_id: Seq<char>, source: Seq<char>) -> Seq<char> {
    "document '"@ + doc_id + "' not found in source '"@ + source + "'"@
}

/// The answer to a read request, given the content found under the
/// document's name, if any.
pub fn read_output(input: &ReadInput, found: Option<String>) -> (r: Result<ReadOutput, String>)
    ensures
        match found {
            Some(c) => r matches Ok(o) && o.source@ == input.source@ && o.doc_id@ == input.doc_id@
                && o.content@ == c@,
            None => r matches Err(m) && m@ == missing_document_text(input.doc_id@, input.source@),
        },
{
    match found {
        Some(content) => Ok(
            ReadOutput { source: input.source.clone(), doc_id: input.doc_id.clone(), content },
        ),
        None => {
            let mut m = String::from_str("document '");
            m.append(input.doc_id.as_str());
            m.append("' not found in source '");
            m.append(input.source.as_str());
            m.append("'");
            Err(m)
        },
    }
}

/// The canonical names of entities, in order.
pub open spec fn entity_names(es: Seq<EntityInfo>) -> Seq<Seq<char>> {
    es.map_values(|e: EntityInfo| e.canonical_name@)
}

/// The views of strings.
pub open spec fn string_views(v: Seq<String>) -> Seq<Seq<char>> {
    v.map_values(|s: String| s@)
}

/// The answer to an entity request, given the entity the catalog found, the
/// relations and documents it lists for it, and the entities whose names
/// are like the request's. Relations and documents are kept only when the
/// request asks for them; suggestions only when nothing was found.
pub fn entity_output(
    input: &EntityInput,
    found: Option<EntityInfo>,
    relations: Vec<RelationInfo>,
    documents: Vec<String>,
    similar: Vec<EntityInfo>,
) -> (r: EntityOutput)
    ensures
        r.found == found is Some,
        match found {
            Some(info) => r.entity matches Some(card) && card.name@ == info.canonical_name@
                && card.description == info.description && card.mention_count == info.mention_count
                && card.relations@ == (if input.relations { relations@ } else { seq![] })
                && string_views(card.documents@) == (if input.documents {
                string_views(documents@)
            } else {
                seq![]
            }) && r.suggestions@.len() == 0,
            None => r.entity is None && string_views(r.suggestions@) == entity_names(similar@),
        },
{
    match found {
        Some(info) => {
            let relations = if input.relations {
                relations
            } else {
                Vec::new()
            };
            let documents = if input.documents {
                documents
            } else {
                Vec::new()
            };
            let card = EntityCard {
                name: info.canonical_name,
                description: info.description,
                mention_count: info.mention_count,
                relations,
                documents,
            };
            proof {
                assert(string_views(Seq::<String>::empty()) =~= seq![]);
            }
            EntityOutput { found: true, entity: Some(card), suggestions: Vec::new() }
        },
        None => {
            let mut names: Vec<String> = Vec::new();
            let mut i: usize = 0;
            while i < similar.len()
                invariant
                    i <= similar@.len(),
                    names@.len() == i,
                    string_views(names@) == entity_names(similar@.take(i as int)),
                decreases similar.len() - i,
            {
                let ghost before = names@;
                names.push(similar[i].canonical_name.clone());
                assert(names@ == before.push(names@[i as int]));
                assert(string_views(names@) =~= string_views(before).push(
                    similar@[i as int].canonical_name@,
                ));
                assert(similar@.take(i + 1) =~= similar@.take(i as int).push(similar@[i as int]));
                assert(entity_names(similar@.take(i + 1)) =~= entity_names(
                    similar@.take(i as int),
                ).push(similar@[i as int].canonical_name@));
                i += 1;
            }
            assert(similar@.take(similar@.len() as int) =~= similar@);
            EntityOutput { found: false, entity: None, suggestions: names }
        },
    }
}

/// The listing entry of a source: its class shown as `public` or
/// `personal`.
pub open spec fn source_info_of(s: DataSource) -> (Seq<char>, Seq<char>, Seq<char>, u64) {
    (
        s.name@,
        s.format@,
        if s.class is Public { "public"@ } else { "personal"@ },
        s.document_count,
    )
}

/// The view of a listing entry.
pub open spec fn source_info_view(i: SourceInfo) -> (Seq<char>, Seq<char>, Seq<char>, u64) {
    (i.name@, i.format@, i.class@, i.document_count)
}

/// The listing of `sources`, in order.
pub fn source_list_output(sources: Vec<DataSource>) -> (r: SourceListOutput)
    ensures
        r.sources@.len() == sources@.len(),
        forall|i: int|
            0 <= i < sources@.len() ==> source_info_view(#[trigger] r.sources@[i])
                == source_info_of(sources@[i]),
{
    let mut out: Vec<SourceInfo> = Vec::new();
    let mut i: usize = 0;
    while i < sources.len()
        invariant
            i <= sources@.len(),
            out@.len() == i,
            forall|k: int|
                0 <= k < i ==> source_info_view(#[trigger] out@[k]) == source_info_of(
                    sources@[k],
                ),
        decreases sources.len() - i,
    {
        let s = &sources[i];
        out.push(
            SourceInfo {
                name: s.name.clone(),
                format: s.format.clone(),
                class: s.class.label(),
                document_count: s.document_count,
            },
        );
        i += 1;
    }
    SourceListOutput { sources: out }
}

/// The status counts; the byte total is not measured here and is zero.
pub fn status_output(source_count: usize, entities: u64, relations: u64) -> (r: StatusOutput)
    ensures
        r.sources == source_count,
        r.entities == entities,
        r.relations == relations,
        r.total_bytes == 0,
{
    StatusOutput { sources: source_count, entities, relations, total_bytes: 0 }
}

/// The number of results of a search mode: `quick` 5, `deep` 50, any other
/// (`normal`) 20; an explicit limit wins.
pub open spec fn mode_limit(mode: Seq<char>, limit: Option<usize>) -> usize {
    match limit {
        Some(n) => n,
        None => if mode == "quick"@ {
            5
        } else if mode == "deep"@ {
            50
        } else {
            20
        },
    }
}

/// How many results a search returns.
pub fn search_limit(mode: &str, limit: Option<usize>) -> (n: usize)
    ensures
        n == mode_limit(mode@, limit),
{
    proof {
        reveal_strlit("quick");
        reveal_strlit("deep");
    }
    match limit {
        Some(n) => n,
        None => {
            let m = String::from_str(mode);
            if m == String::from_str("quick") {
                5
            } else if m == String::from_str("deep") {
                50
            } else {
                20
            }
        },
    }
}

} // verus!
