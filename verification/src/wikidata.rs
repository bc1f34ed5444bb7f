//! The line-by-line reading of a Wikidata JSON dump: which lines hold an
//! entity, what is kept of each entity (labels in a few languages, the
//! English description, the first readable value of each property of
//! interest, the type), which entities pass the type filter, and when the
//! limit stops the scan. The program parses each line's JSON into a
//! `RawItem`.
use vstd::prelude::*;
use crate::sources::{trim_suffix_all, trim_suffix_all_exec};
use crate::text::{str_chars, string_from_range, trim, trim_range};

verus! {

/// Configuration for reading a dump.
#[derive(Debug, Clone)]
pub struct WikidataConfig {
    /// Most entities to keep (0 = no limit).
    pub limit: usize,
    /// Keep only entities whose type (P31 value) is one of these; empty
    /// keeps all.
    pub type_filter: Vec<String>,
}

impl Default for WikidataConfig {
    fn default() -> (r: WikidataConfig)
        ensures
            r.limit == 0,
            r.type_filter@.len() == 0,
    {
        WikidataConfig { limit: 0, type_filter: Vec::new() }
    }
}

/// A dump line trimmed of whitespace and then of trailing commas.
pub open spec fn dump_entry(line: Seq<char>) -> Seq<char> {
    trim_suffix_all(trim(line), ","@)
}

/// The JSON text of an entity on a dump line: `None` for the array's
/// brackets and for blank lines.
pub open spec fn dump_line_spec(line: Seq<char>) -> Option<Seq<char>> {
    let t = dump_entry(line);
    if t == "["@ || t == "]"@ || t.len() == 0 {
        None
    } else {
        Some(t)
    }
}

/// The JSON text of an entity on a dump line, if the line holds one.
pub fn dump_line(line: &str) -> (r: Option<String>)
    ensures
        match r {
            Some(t) => dump_line_spec(line@) == Some(t@),
            None => dump_line_spec(line@) is None,
        },
{
    let v = str_chars(line);
    let (a, b) = trim_range(v.as_slice(), 0, v.len());
    assert(v@.subrange(0, v@.len() as int) =~= v@);
    let trimmed = &v.as_slice()[a..b];
    assert(trimmed@ == trim(line@));
    let comma = str_chars(",");
    proof {
        reveal_strlit(",");
    }
    let n = trim_suffix_all_exec(trimmed, comma.as_slice());
    let t = string_from_range(trimmed, 0, n);
    proof {
        reveal_strlit("[");
        reveal_strlit("]");
        assert(t@ == dump_entry(line@));
    }
    if t == String::from_str("[") || t == String::from_str("]") || n == 0 {
        None
    } else {
        Some(t)
    }
}

/// An entity of type `entity_type` passes the filter: any type when the
/// filter is empty, otherwise a type that is listed.
pub open spec fn passes_filter(filter: Seq<String>, entity_type: Option<Seq<char>>) -> bool {
    filter.len() == 0 || (entity_type matches Some(t) && exists|i: int|
        0 <= i < filter.len() && (#[trigger] filter[i])@ == t)
}

impl WikidataConfig {
    /// Whether an entity of type `entity_type` is kept.
    pub fn passes_type_filter(&self, entity_type: Option<&str>) -> (b: bool)
        ensures
            b == passes_filter(
                self.type_filter@,
                match entity_type {
                    Some(t) => Some(t@),
                    None => None,
                },
            ),
    {
        filter_passes(self.type_filter.as_slice(), entity_type)
    }

    /// Whether `count` kept entities end the scan.
    pub fn limit_reached(&self, count: u64) -> (b: bool)
        ensures
            b == (self.limit > 0 && count >= self.limit),
    {
        self.limit > 0 && count >= self.limit as u64
    }
}

// ── Entities ─────────────────────────────────────────────────────────

/// A claim's value: an entity reference, a string, or a quantity or
/// coordinates, whose numbers the program keeps.
#[derive(Debug)]
pub enum ClaimValue {
    EntityRef(String),
    Text(String),
    Quantity,
    Coordinates,
}

/// What a claim's value is, as text.
pub enum ClaimView {
    EntityRef(Seq<char>),
    Text(Seq<char>),
    Quantity,
    Coordinates,
}

/// The view of a claim's value.
pub open spec fn claim_view(c: ClaimValue) -> ClaimView {
    match c {
        ClaimValue::EntityRef(q) => ClaimView::EntityRef(q@),
        ClaimValue::Text(t) => ClaimView::Text(t@),
        ClaimValue::Quantity => ClaimView::Quantity,
        ClaimValue::Coordinates => ClaimView::Coordinates,
    }
}

/// A claim's data value as the dump gives it: its type, the `id` of an
/// entity value, the text of a string value, whether a quantity's amount
/// reads as a number (after a leading `+`), and whether a coordinate value
/// has a numeric latitude and longitude.
#[derive(Debug)]
pub struct RawDatavalue {
    pub kind: Option<String>,
    pub entity_id: Option<String>,
    pub text: Option<String>,
    pub amount_is_number: bool,
    pub has_coordinates: bool,
}

/// The value a claim's data value gives, if it is readable.
pub open spec fn extract_value_spec(dv: RawDatavalue) -> Option<ClaimView> {
    match dv.kind {
        Some(k) => if k@ == "wikibase-entityid"@ {
            match dv.entity_id {
                Some(q) => Some(ClaimView::EntityRef(q@)),
                None => None,
            }
        } else if k@ == "string"@ {
            match dv.text {
                Some(t) => Some(ClaimView::Text(t@)),
                None => None,
            }
        } else if k@ == "quantity"@ {
            if dv.amount_is_number {
                Some(ClaimView::Quantity)
            } else {
                None
            }
        } else if k@ == "globecoordinate"@ {
            if dv.has_coordinates {
                Some(ClaimView::Coordinates)
            } else {
                None
            }
        } else {
            None
        },
        None => None,
    }
}

/// The view of an optional claim value.
pub open spec fn opt_claim_view(c: Option<ClaimValue>) -> Option<ClaimView> {
    match c {
        Some(v) => Some(claim_view(v)),
        None => None,
    }
}

/// The value of a claim's data value, when readable.
pub fn extract_value(dv: &RawDatavalue) -> (r: Option<ClaimValue>)
    ensures
        opt_claim_view(r) == extract_value_spec(*dv),
{
    let kind = match &dv.kind {
        Some(k) => k,
        None => {
            return None;
        },
    };
    proof {
        reveal_strlit("wikibase-entityid");
        reveal_strlit("string");
        reveal_strlit("quantity");
        reveal_strlit("globecoordinate");
    }
    if *kind == String::from_str("wikibase-entityid") {
        match &dv.entity_id {
            Some(q) => Some(ClaimValue::EntityRef(q.clone())),
            None => None,
        }
    } else if *kind == String::from_str("string") {
        match &dv.text {
            Some(t) => Some(ClaimValue::Text(t.clone())),
            None => None,
        }
    } else if *kind == String::from_str("quantity") {
        if dv.amount_is_number {
            Some(ClaimValue::Quantity)
        } else {
            None
        }
    } else if *kind == String::from_str("globecoordinate") {
        if dv.has_coordinates {
            Some(ClaimValue::Coordinates)
        } else {
            None
        }
    } else {
        None
    }
}

/// An entity of the dump as the program reads it: its type, its id, its
/// labels `(language, text)`, its English description, and each property's
/// claims (`None` for a claim without a readable value).
#[derive(Debug)]
pub struct RawItem {
    pub kind: Option<String>,
    pub id: Option<String>,
    pub labels: Vec<(String, String)>,
    pub en_description: Option<String>,
    pub claims: Vec<(String, Vec<Option<ClaimValue>>)>,
}

/// A property kept for an entity: its id and name, which of its claims
/// gave the value, and the value.
#[derive(Debug)]
pub struct PlannedProperty {
    pub property: String,
    pub property_label: String,
    pub claim: usize,
    pub value: ClaimValue,
}

/// What is kept of an entity: its id, its labels in the kept languages (in
/// their order), its English description, its type, and its properties (in
/// the order of the properties of interest).
#[derive(Debug)]
pub struct EntityPlan {
    pub qid: String,
    pub labels: Vec<(String, String)>,
    pub description: Option<String>,
    pub entity_type: Option<String>,
    pub properties: Vec<PlannedProperty>,
}

/// The view of a kept property: id, name, claim position, value.
pub type PropertyView = (Seq<char>, Seq<char>, int, ClaimView);

/// The view of what is kept of an entity.
pub type PlanView = (
    Seq<char>,
    Seq<(Seq<char>, Seq<char>)>,
    Option<Seq<char>>,
    Option<Seq<char>>,
    Seq<PropertyView>,
);

/// The text of an optional string.
pub open spec fn opt_text(o: Option<String>) -> Option<Seq<char>> {
    match o {
        Some(s) => Some(s@),
        None => None,
    }
}

/// The view of a kept property.
pub open spec fn property_view(p: PlannedProperty) -> PropertyView {
    (p.property@, p.property_label@, p.claim as int, claim_view(p.value))
}

/// The view of what is kept of an entity.
pub open spec fn plan_view(p: EntityPlan) -> PlanView {
    (
        p.qid@,
        p.labels@.map_values(|l: (String, String)| (l.0@, l.1@)),
        opt_text(p.description),
        opt_text(p.entity_type),
        p.properties@.map_values(|q: PlannedProperty| property_view(q)),
    )
}

/// The languages whose labels are kept, in order.
pub open spec fn keep_languages() -> Seq<Seq<char>> {
    seq!["en"@, "ru"@, "de"@, "fr"@, "es"@, "zh"@, "ja"@]
}

/// The properties kept, `(id, name)`, in order.
pub open spec fn interesting_properties() -> Seq<(Seq<char>, Seq<char>)> {
    seq![
        ("P31"@, "instance_of"@),
        ("P17"@, "country"@),
        ("P36"@, "capital"@),
        ("P1082"@, "population"@),
        ("P625"@, "coordinate_location"@),
        ("P6"@, "head_of_government"@),
        ("P30"@, "continent"@),
        ("P37"@, "official_language"@),
        ("P35"@, "head_of_state"@),
        ("P47"@, "shares_border_with"@),
        ("P150"@, "contains"@),
        ("P131"@, "located_in"@),
        ("P495"@, "country_of_origin"@),
        ("P571"@, "inception"@),
        ("P18"@, "image"@),
    ]
}

/// The label in `lang` among the first `n` labels: the last one given, as
/// a JSON object keeps its last duplicate key.
pub open spec fn label_upto(labels: Seq<(String, String)>, lang: Seq<char>, n: int) -> Option<Seq<char>>
    decreases n,
{
    if n <= 0 {
        None
    } else if labels[n - 1].0@ == lang {
        Some(labels[n - 1].1@)
    } else {
        label_upto(labels, lang, n - 1)
    }
}

/// The label in `lang`.
pub open spec fn label_in(labels: Seq<(String, String)>, lang: Seq<char>) -> Option<Seq<char>> {
    label_upto(labels, lang, labels.len() as int)
}

/// The labels kept for the first `k` kept languages, `(language, text)`.
pub open spec fn kept_labels(labels: Seq<(String, String)>, k: int) -> Seq<(Seq<char>, Seq<char>)>
    decreases k,
{
    if k <= 0 {
        seq![]
    } else {
        kept_labels(labels, k - 1) + match label_in(labels, keep_languages()[k - 1]) {
            Some(v) => seq![(keep_languages()[k - 1], v)],
            None => seq![],
        }
    }
}

/// Where the claims of property `prop` are among the first `n` entries:
/// the last entry for it.
pub open spec fn claims_upto(claims: Seq<(String, Vec<Option<ClaimValue>>)>, prop: Seq<char>, n: int) -> Option<int>
    decreases n,
{
    if n <= 0 {
        None
    } else if claims[n - 1].0@ == prop {
        Some(n - 1)
    } else {
        claims_upto(claims, prop, n - 1)
    }
}

/// The first readable claim among the first `n`: its position and value.
pub open spec fn first_readable(cs: Seq<Option<ClaimValue>>, n: int) -> Option<(int, ClaimView)>
    decreases n,
{
    if n <= 0 {
        None
    } else {
        match first_readable(cs, n - 1) {
            Some(x) => Some(x),
            None => match cs[n - 1] {
                Some(v) => Some((n - 1, claim_view(v))),
                None => None,
            },
        }
    }
}

/// The value kept for property `prop`: its first readable claim.
pub open spec fn property_value(claims: Seq<(String, Vec<Option<ClaimValue>>)>, prop: Seq<char>) -> Option<(int, ClaimView)> {
    match claims_upto(claims, prop, claims.len() as int) {
        Some(i) => first_readable(claims[i].1@, claims[i].1@.len() as int),
        None => None,
    }
}

/// The properties kept among the first `k` properties of interest.
pub open spec fn kept_properties(claims: Seq<(String, Vec<Option<ClaimValue>>)>, k: int) -> Seq<PropertyView>
    decreases k,
{
    if k <= 0 {
        seq![]
    } else {
        let (id, name) = interesting_properties()[k - 1];
        kept_properties(claims, k - 1) + match property_value(claims, id) {
            Some((j, v)) => seq![(id, name, j, v)],
            None => seq![],
        }
    }
}

/// The entity's type: its first readable `P31` (instance of) value, when
/// that is an entity reference.
pub open spec fn entity_type_of(claims: Seq<(String, Vec<Option<ClaimValue>>)>) -> Option<Seq<char>> {
    match property_value(claims, "P31"@) {
        Some((_, ClaimView::EntityRef(q))) => Some(q),
        _ => None,
    }
}

/// What is kept of an entity: nothing without an id or an English label;
/// otherwise its id, its labels in the kept languages, its English
/// description, its type, and the first readable claim of each property of
/// interest.
pub open spec fn extract_entity_spec(raw: RawItem) -> Option<PlanView> {
    match raw.id {
        None => None,
        Some(q) => if label_in(raw.labels@, "en"@) is None {
            None
        } else {
            Some(
                (
                    q@,
                    kept_labels(raw.labels@, 7),
                    opt_text(raw.en_description),
                    entity_type_of(raw.claims@),
                    kept_properties(raw.claims@, 15),
                ),
            )
        },
    }
}

fn keep_language(k: usize) -> (r: &'static str)
    requires
        k < 7,
    ensures
        r@ == keep_languages()[k as int],
{
    match k {
        0 => "en",
        1 => "ru",
        2 => "de",
        3 => "fr",
        4 => "es",
        5 => "zh",
        _ => "ja",
    }
}

fn interesting_property(k: usize) -> (r: (&'static str, &'static str))
    requires
        k < 15,
    ensures
        (r.0@, r.1@) == interesting_properties()[k as int],
{
    match k {
        0 => ("P31", "instance_of"),
        1 => ("P17", "country"),
        2 => ("P36", "capital"),
        3 => ("P1082", "population"),
        4 => ("P625", "coordinate_location"),
        5 => ("P6", "head_of_government"),
        6 => ("P30", "continent"),
        7 => ("P37", "official_language"),
        8 => ("P35", "head_of_state"),
        9 => ("P47", "shares_border_with"),
        10 => ("P150", "contains"),
        11 => ("P131", "located_in"),
        12 => ("P495", "country_of_origin"),
        13 => ("P571", "inception"),
        _ => ("P18", "image"),
    }
}

fn find_label(labels: &Vec<(String, String)>, lang: &str) -> (r: Option<String>)
    ensures
        opt_text(r) == label_in(labels@, lang@),
{
    let key = String::from_str(lang);
    let mut n = labels.len();
    while n > 0
        invariant
            n <= labels@.len(),
            key@ == lang@,
            label_in(labels@, lang@) == label_upto(labels@, lang@, n as int),
        decreases n,
    {
        if labels[n - 1].0 == key {
            return Some(labels[n - 1].1.clone());
        }
        n -= 1;
    }
    None
}

fn find_claims(claims: &Vec<(String, Vec<Option<ClaimValue>>)>, prop: &str) -> (r: Option<usize>)
    ensures
        match r {
            Some(i) => claims_upto(claims@, prop@, claims@.len() as int) == Some(i as int),
            None => claims_upto(claims@, prop@, claims@.len() as int) is None,
        },
{
    let key = String::from_str(prop);
    let mut n = claims.len();
    while n > 0
        invariant
            n <= claims@.len(),
            key@ == prop@,
            claims_upto(claims@, prop@, claims@.len() as int) == claims_upto(claims@, prop@, n as int),
        decreases n,
    {
        if claims[n - 1].0 == key {
            return Some(n - 1);
        }
        n -= 1;
    }
    None
}

proof fn lemma_claims_upto_bound(claims: Seq<(String, Vec<Option<ClaimValue>>)>, prop: Seq<char>, n: int)
    requires
        0 <= n,
    ensures
        claims_upto(claims, prop, n) matches Some(i) ==> 0 <= i < n,
    decreases n,
{
    if n > 0 {
        lemma_claims_upto_bound(claims, prop, n - 1);
    }
}

fn copy_claim(c: &ClaimValue) -> (r: ClaimValue)
    ensures
        claim_view(r) == claim_view(*c),
{
    match c {
        ClaimValue::EntityRef(q) => ClaimValue::EntityRef(q.clone()),
        ClaimValue::Text(t) => ClaimValue::Text(t.clone()),
        ClaimValue::Quantity => ClaimValue::Quantity,
        ClaimValue::Coordinates => ClaimValue::Coordinates,
    }
}

fn first_readable_claim(cs: &Vec<Option<ClaimValue>>) -> (r: Option<(usize, ClaimValue)>)
    ensures
        match first_readable(cs@, cs@.len() as int) {
            Some((j, v)) => r matches Some((rj, rv)) && rj == j && claim_view(rv) == v,
            None => r is None,
        },
{
    let mut j: usize = 0;
    while j < cs.len()
        invariant
            j <= cs@.len(),
            first_readable(cs@, j as int) is None,
        decreases cs.len() - j,
    {
        match &cs[j] {
            Some(v) => {
                proof {
                    lemma_first_readable_stays(cs@, j as int + 1, cs@.len() as int);
                }
                return Some((j, copy_claim(v)));
            },
            None => {},
        }
        j += 1;
    }
    None
}

proof fn lemma_first_readable_stays(cs: Seq<Option<ClaimValue>>, i: int, n: int)
    requires
        0 <= i <= n,
        first_readable(cs, i) is Some,
    ensures
        first_readable(cs, n) == first_readable(cs, i),
    decreases n - i,
{
    if i < n {
        lemma_first_readable_stays(cs, i, n - 1);
    }
}

/// What is kept of an entity, or `None` when it has no id or no English
/// label.
pub fn extract_entity(raw: &RawItem) -> (r: Option<EntityPlan>)
    ensures
        match extract_entity_spec(*raw) {
            Some(p) => r matches Some(e) && plan_view(e) == p,
            None => r is None,
        },
{
    let qid = match &raw.id {
        Some(q) => q.clone(),
        None => {
            return None;
        },
    };
    proof {
        reveal_strlit("en");
    }
    if find_label(&raw.labels, "en").is_none() {
        return None;
    }
    let mut labels: Vec<(String, String)> = Vec::new();
    let mut k: usize = 0;
    while k < 7
        invariant
            k <= 7,
            labels@.map_values(|l: (String, String)| (l.0@, l.1@)) == kept_labels(raw.labels@, k as int),
        decreases 7 - k,
    {
        let lang = keep_language(k);
        let ghost before = labels@;
        match find_label(&raw.labels, lang) {
            Some(v) => {
                labels.push((String::from_str(lang), v));
                assert(labels@.map_values(|l: (String, String)| (l.0@, l.1@)) =~= before.map_values(
                    |l: (String, String)| (l.0@, l.1@),
                ) + seq![(keep_languages()[k as int], label_in(raw.labels@, keep_languages()[k as int])->0)]);
            },
            None => {
                assert(kept_labels(raw.labels@, k + 1) =~= kept_labels(raw.labels@, k as int));
            },
        }
        k += 1;
    }
    let description = match &raw.en_description {
        Some(d) => Some(d.clone()),
        None => None,
    };
    let mut properties: Vec<PlannedProperty> = Vec::new();
    let mut entity_type: Option<String> = None;
    let mut p: usize = 0;
    while p < 15
        invariant
            p <= 15,
            properties@.map_values(|q: PlannedProperty| property_view(q)) == kept_properties(raw.claims@, p as int),
            p > 0 ==> opt_text(entity_type) == entity_type_of(raw.claims@),
        decreases 15 - p,
    {
        let (id, name) = interesting_property(p);
        let ghost before = properties@;
        proof {
            lemma_claims_upto_bound(raw.claims@, id@, raw.claims@.len() as int);
        }
        let ci = find_claims(&raw.claims, id);
        let found = match ci {
            Some(i) => {
                let f = first_readable_claim(&raw.claims[i].1);
                proof {
                    assert(claims_upto(raw.claims@, id@, raw.claims@.len() as int) == Some(i as int));
                    assert(property_value(raw.claims@, id@) == first_readable(
                        raw.claims@[i as int].1@,
                        raw.claims@[i as int].1@.len() as int,
                    ));
                }
                f
            },
            None => None,
        };
        assert(found matches Some((j, v)) ==> property_value(raw.claims@, id@) == Some((j as int, claim_view(v))));
        assert(found is None ==> property_value(raw.claims@, id@) is None);
        match found {
            Some((j, v)) => {
                if p == 0 {
                    entity_type = match &v {
                        ClaimValue::EntityRef(q) => Some(q.clone()),
                        _ => None,
                    };
                }
                properties.push(PlannedProperty {
                    property: String::from_str(id),
                    property_label: String::from_str(name),
                    claim: j,
                    value: v,
                });
                assert(properties@.map_values(|q: PlannedProperty| property_view(q)) =~= before.map_values(
                    |q: PlannedProperty| property_view(q),
                ) + seq![property_view(properties@.last())]);
            },
            None => {
                if p == 0 {
                    entity_type = None;
                }
                assert(kept_properties(raw.claims@, p + 1) =~= kept_properties(raw.claims@, p as int));
            },
        }
        p += 1;
    }
    Some(EntityPlan { qid, labels, description, entity_type, properties })
}

/// An entity is kept when it is an item and passes the type filter.
pub open spec fn keep_spec(kind: Option<Seq<char>>, entity_type: Option<Seq<char>>, filter: Seq<String>) -> bool {
    kind == Some("item"@) && passes_filter(filter, entity_type)
}

fn filter_passes(filter: &[String], entity_type: Option<&str>) -> (b: bool)
    ensures
        b == passes_filter(
            filter@,
            match entity_type {
                Some(t) => Some(t@),
                None => None,
            },
        ),
{
    if filter.len() == 0 {
        return true;
    }
    let et = match entity_type {
        Some(t) => t,
        None => {
            return false;
        },
    };
    let wanted = String::from_str(et);
    let mut i: usize = 0;
    while i < filter.len()
        invariant
            i <= filter@.len(),
            wanted@ == et@,
            entity_type == Some(et),
            forall|k: int| 0 <= k < i ==> (#[trigger] filter@[k])@ != et@,
        decreases filter.len() - i,
    {
        if filter[i] == wanted {
            assert(filter@[i as int]@ == et@);
            return true;
        }
        i += 1;
    }
    false
}

/// Whether an entity of type `kind` (the dump's `type` field) and entity
/// type `entity_type` is kept: items only, and those the filter admits.
pub fn keep_entity(kind: Option<&str>, entity_type: Option<&str>, type_filter: &[String]) -> (b: bool)
    ensures
        b == keep_spec(
            match kind {
                Some(k) => Some(k@),
                None => None,
            },
            match entity_type {
                Some(t) => Some(t@),
                None => None,
            },
            type_filter@,
        ),
{
    proof {
        reveal_strlit("item");
    }
    let is_item = match kind {
        Some(k) => String::from_str(k) == String::from_str("item"),
        None => false,
    };
    is_item && filter_passes(type_filter, entity_type)
}

/// What the scan keeps of an entity under a configuration.
pub open spec fn select_spec(config: WikidataConfig, raw: RawItem) -> Option<PlanView> {
    match extract_entity_spec(raw) {
        Some(p) => if keep_spec(opt_text(raw.kind), p.3, config.type_filter@) {
            Some(p)
        } else {
            None
        },
        None => None,
    }
}

/// A scan of a dump: how many entities it has kept so far.
#[derive(Debug, Clone, Copy)]
pub struct WikidataScan {
    pub count: u64,
}

impl WikidataScan {
    /// A scan that has kept nothing.
    pub fn new() -> (r: WikidataScan)
        ensures
            r.count == 0,
    {
        WikidataScan { count: 0 }
    }

    /// Takes the dump's next entity: what is kept of it, if it is kept, and
    /// whether the limit now ends the scan.
    pub fn take(&mut self, config: &WikidataConfig, raw: &RawItem) -> (r: (Option<EntityPlan>, bool))
        requires
            old(self).count < u64::MAX,
        ensures
            match select_spec(*config, *raw) {
                None => r.0 is None && final(self).count == old(self).count && !r.1,
                Some(p) => r.0 matches Some(e) && plan_view(e) == p && final(self).count
                    == old(self).count + 1 && r.1 == (config.limit > 0 && final(self).count
                    >= config.limit),
            },
    {
        let plan = match extract_entity(raw) {
            Some(e) => e,
            None => {
                return (None, false);
            },
        };
        let kind = match &raw.kind {
            Some(k) => Some(k.as_str()),
            None => None,
        };
        let et = match &plan.entity_type {
            Some(t) => Some(t.as_str()),
            None => None,
        };
        if !keep_entity(kind, et, config.type_filter.as_slice()) {
            return (None, false);
        }
        self.count = self.count + 1;
        let stop = config.limit_reached(self.count);
        (Some(plan), stop)
    }
}

} // verus!
