use lokb::facts::{co_occurrence_pairs, fact_lookup, fact_query, person_id, wiki_id, EntityInfo, RelationInfo};

fn entity(name: &str, description: Option<&str>) -> EntityInfo {
    EntityInfo {
        id: wiki_id(name),
        canonical_name: name.to_string(),
        description: description.map(str::to_string),
        entity_types: "[]".to_string(),
        external_ids: "{}".to_string(),
        mention_count: 1,
    }
}

fn rel(predicate: &str, target: &str) -> RelationInfo {
    RelationInfo { predicate: predicate.to_string(), target_name: target.to_string() }
}

#[test]
fn entity_ids() {
    assert_eq!(wiki_id("Albert Einstein"), "wiki:albert_einstein");
    assert_eq!(wiki_id("ÉCOLE Normale"), "wiki:école_normale");
    assert_eq!(person_id("Jane Doe"), "person:jane_doe");
}

#[test]
fn co_occurrences_pair_each_entity_with_the_later_ones() {
    assert_eq!(co_occurrence_pairs(3), vec![(0, 1), (0, 2), (1, 2)]);
    assert!(co_occurrence_pairs(1).is_empty());
    assert!(co_occurrence_pairs(0).is_empty());
}

#[test]
fn fact_questions_name_an_entity_and_a_property() {
    assert_eq!(fact_query("population of Paris"), Some(("Paris".to_string(), "population".to_string())));
    assert_eq!(
        fact_query("What is the Capital OF  France "),
        Some(("France".to_string(), "what is the capital".to_string()))
    );
    assert_eq!(fact_query("capital France"), Some(("France".to_string(), "capital".to_string())));
    assert_eq!(fact_query("Capital  of"), Some(("of".to_string(), "capital".to_string())));
    assert_eq!(fact_query("Mayor New  York"), Some(("New York".to_string(), "mayor".to_string())));
    assert_eq!(fact_query("Paris"), None);
    assert_eq!(fact_query("   "), None);
}

#[test]
fn facts_come_from_the_first_matching_relation() {
    let france = entity("France", Some("country in Europe"));
    let rels = vec![rel("population", "68 million"), rel("Capital", "Paris"), rel("capital_city", "Paris")];
    let a = fact_lookup("capital", &france, &rels).unwrap();
    assert_eq!(a.answer, "France: Capital → Paris");
    assert_eq!(a.entity.as_deref(), Some("France"));
    assert_eq!(a.property.as_deref(), Some("Capital"));
    assert_eq!(a.source.as_deref(), Some("knowledge_graph"));

    let b = fact_lookup("what is the population", &france, &rels).unwrap();
    assert_eq!(b.answer, "France: population → 68 million");

    let c = fact_lookup("anthem", &france, &rels).unwrap();
    assert_eq!(c.answer, "France: country in Europe");
    assert!(c.property.is_none());

    assert!(fact_lookup("anthem", &entity("Nowhere", None), &rels).is_none());
    assert!(fact_lookup("anything", &entity("Nowhere", None), &[]).is_none());
}
