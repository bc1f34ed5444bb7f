use lokb::wikidata::{
    dump_line, extract_entity, extract_value, keep_entity, ClaimValue, EntityPlan, RawDatavalue, RawItem,
    WikidataConfig, WikidataScan,
};
use serde_json::Value;

/// A dump entity read into the library's type, as the program does.
fn raw_item(v: &Value) -> RawItem {
    let labels = v["labels"]
        .as_object()
        .map(|m| {
            m.iter()
                .filter_map(|(lang, l)| l["value"].as_str().map(|s| (lang.clone(), s.to_string())))
                .collect()
        })
        .unwrap_or_default();
    let claims = v["claims"]
        .as_object()
        .map(|m| {
            m.iter()
                .map(|(prop, list)| {
                    let values = list
                        .as_array()
                        .map(|a| a.iter().map(|c| claim_value(&c["mainsnak"]["datavalue"])).collect())
                        .unwrap_or_default();
                    (prop.clone(), values)
                })
                .collect()
        })
        .unwrap_or_default();
    RawItem {
        kind: v["type"].as_str().map(str::to_string),
        id: v["id"].as_str().map(str::to_string),
        labels,
        en_description: v["descriptions"]["en"]["value"].as_str().map(str::to_string),
        claims,
    }
}

fn claim_value(dv: &Value) -> Option<ClaimValue> {
    if dv.is_null() {
        return None;
    }
    let value = &dv["value"];
    extract_value(&RawDatavalue {
        kind: dv["type"].as_str().map(str::to_string),
        entity_id: value["id"].as_str().map(str::to_string),
        text: value.as_str().map(str::to_string),
        amount_is_number: value["amount"].as_str().is_some_and(|a| a.trim_start_matches('+').parse::<f64>().is_ok()),
        has_coordinates: value["latitude"].as_f64().is_some() && value["longitude"].as_f64().is_some(),
    })
}

/// Scans a dump's text with the library's decisions; returns the kept
/// entities with the JSON they came from.
fn scan(json: &str, config: &WikidataConfig) -> Vec<(EntityPlan, Value)> {
    let mut scan = WikidataScan::new();
    let mut out = Vec::new();
    for line in json.lines() {
        let Some(text) = dump_line(line) else { continue };
        let Ok(v) = serde_json::from_str::<Value>(&text) else { continue };
        let (plan, stop) = scan.take(config, &raw_item(&v));
        if let Some(p) = plan {
            out.push((p, v));
        }
        if stop {
            break;
        }
    }
    out
}

fn label<'a>(e: &'a EntityPlan, lang: &str) -> Option<&'a String> {
    e.labels.iter().find(|(l, _)| l == lang).map(|(_, v)| v)
}

#[test]
fn test_parse_single_entity() {
    let json = r#"[
{"type":"item","id":"Q90","labels":{"en":{"language":"en","value":"Paris"},"ru":{"language":"ru","value":"Париж"}},"descriptions":{"en":{"language":"en","value":"capital of France"}},"claims":{"P31":[{"mainsnak":{"datavalue":{"type":"wikibase-entityid","value":{"id":"Q515"}}}}],"P17":[{"mainsnak":{"datavalue":{"type":"wikibase-entityid","value":{"id":"Q142"}}}}],"P1082":[{"mainsnak":{"datavalue":{"type":"quantity","value":{"amount":"+2102650"}}}}],"P625":[{"mainsnak":{"datavalue":{"type":"globecoordinate","value":{"latitude":48.856,"longitude":2.352}}}}]}}
]"#;

    let entities = scan(json, &WikidataConfig::default());
    assert_eq!(entities.len(), 1);
    let (paris, v) = &entities[0];
    assert_eq!(paris.qid, "Q90");
    assert_eq!(label(paris, "en"), Some(&"Paris".to_string()));
    assert_eq!(label(paris, "ru"), Some(&"Париж".to_string()));
    assert_eq!(paris.description, Some("capital of France".to_string()));
    assert_eq!(paris.entity_type, Some("Q515".to_string()));
    // The coordinates' numbers are read from the claim the library chose.
    let coord = paris.properties.iter().find(|p| p.property == "P625").unwrap();
    assert!(matches!(coord.value, ClaimValue::Coordinates));
    let value = &v["claims"]["P625"][coord.claim]["mainsnak"]["datavalue"]["value"];
    assert!((value["latitude"].as_f64().unwrap() - 48.856).abs() < 0.001);
    assert!((value["longitude"].as_f64().unwrap() - 2.352).abs() < 0.001);
    assert_eq!(paris.properties.len(), 4); // P31, P17, P1082, P625
}

#[test]
fn test_skip_non_items() {
    let json = r#"[
{"type":"property","id":"P31","labels":{"en":{"language":"en","value":"instance of"}}}
]"#;
    assert_eq!(scan(json, &WikidataConfig::default()).len(), 0);
}

#[test]
fn test_skip_without_english_label() {
    let json = r#"[
{"type":"item","id":"Q999","labels":{"de":{"language":"de","value":"Nur Deutsch"}},"claims":{}}
]"#;
    assert_eq!(scan(json, &WikidataConfig::default()).len(), 0);
}

#[test]
fn test_limit() {
    let json = r#"[
{"type":"item","id":"Q1","labels":{"en":{"language":"en","value":"One"}},"claims":{}},
{"type":"item","id":"Q2","labels":{"en":{"language":"en","value":"Two"}},"claims":{}},
{"type":"item","id":"Q3","labels":{"en":{"language":"en","value":"Three"}},"claims":{}}
]"#;
    let config = WikidataConfig { limit: 2, type_filter: vec![] };
    assert_eq!(scan(json, &config).len(), 2);
}

fn item(claims: Vec<(String, Vec<Option<ClaimValue>>)>) -> RawItem {
    RawItem {
        kind: Some("item".to_string()),
        id: Some("Q7".to_string()),
        labels: vec![
            ("ja".to_string(), "七".to_string()),
            ("it".to_string(), "sette".to_string()),
            ("en".to_string(), "Seven".to_string()),
        ],
        en_description: None,
        claims,
    }
}

#[test]
fn entities_keep_languages_in_order_and_the_first_readable_claims() {
    let q = |s: &str| Some(ClaimValue::EntityRef(s.to_string()));
    let raw = item(vec![
        ("P17".to_string(), vec![None, q("Q142"), q("Q183")]),
        ("P31".to_string(), vec![Some(ClaimValue::Text("city".to_string())), q("Q515")]),
        ("P999".to_string(), vec![q("Q1")]),
        ("P18".to_string(), vec![None]),
    ]);
    let e = extract_entity(&raw).unwrap();
    let langs: Vec<&str> = e.labels.iter().map(|(l, _)| l.as_str()).collect();
    assert_eq!(langs, vec!["en", "ja"]);
    let props: Vec<(&str, &str, usize)> =
        e.properties.iter().map(|p| (p.property.as_str(), p.property_label.as_str(), p.claim)).collect();
    assert_eq!(props, vec![("P31", "instance_of", 0), ("P17", "country", 1)]);
    // The first readable P31 value is a string, so there is no type.
    assert_eq!(e.entity_type, None);
    assert!(matches!(&e.properties[1].value, ClaimValue::EntityRef(t) if t == "Q142"));

    let mut no_id = item(vec![]);
    no_id.id = None;
    assert!(extract_entity(&no_id).is_none());
}

#[test]
fn claim_values_and_the_type_filter() {
    let dv = |kind: &str| RawDatavalue {
        kind: Some(kind.to_string()),
        entity_id: Some("Q5".to_string()),
        text: None,
        amount_is_number: false,
        has_coordinates: true,
    };
    assert!(matches!(extract_value(&dv("wikibase-entityid")), Some(ClaimValue::EntityRef(q)) if q == "Q5"));
    assert!(extract_value(&dv("string")).is_none());
    assert!(extract_value(&dv("quantity")).is_none());
    assert!(matches!(extract_value(&dv("globecoordinate")), Some(ClaimValue::Coordinates)));
    assert!(extract_value(&dv("time")).is_none());

    let cities = vec!["Q515".to_string()];
    assert!(keep_entity(Some("item"), Some("Q515"), &cities));
    assert!(!keep_entity(Some("item"), Some("Q5"), &cities));
    assert!(!keep_entity(Some("item"), None, &cities));
    assert!(keep_entity(Some("item"), None, &[]));
    assert!(!keep_entity(Some("property"), Some("Q515"), &cities));
    assert!(!keep_entity(None, None, &[]));
}
