use serde_json::Value;

use to_hood_profile_serializer::CompactCollection;
use to_hood_profile_serializer::CompactEntry;
use to_hood_profile_serializer::NeighbourhoodPoints;
use to_hood_profile_serializer::VerboseEntry;
use to_hood_profile_serializer::create_compact_collection;
use to_hood_profile_serializer::json::compact_to_json;
use to_hood_profile_serializer::json::verbose_to_json;

fn points(pairs: Vec<(&str, i64)>) -> NeighbourhoodPoints {
    let mut p = NeighbourhoodPoints { entries: Vec::new() };
    for (name, value) in pairs {
        p.insert(name.to_string(), value);
    }
    p
}

fn scenario_forest() -> Vec<VerboseEntry> {
    vec![VerboseEntry {
        name: "Population".to_string(),
        data: points(vec![("North York", 300000), ("Scarborough", 370000)]),
        nested: vec![VerboseEntry {
            name: "Pop under 12".to_string(),
            data: points(vec![("North York", 120000), ("Scarborough", 140000)]),
            nested: vec![],
        }],
    }]
}

fn scenario_value() -> Value {
    let mut child_data = serde_json::Map::new();
    child_data.insert("North York".to_string(), Value::from(120000i64));
    child_data.insert("Scarborough".to_string(), Value::from(140000i64));
    let mut child = serde_json::Map::new();
    child.insert("name".to_string(), Value::String("Pop under 12".to_string()));
    child.insert("data".to_string(), Value::Object(child_data));
    child.insert("nested".to_string(), Value::Array(vec![]));

    let mut top_data = serde_json::Map::new();
    top_data.insert("North York".to_string(), Value::from(300000i64));
    top_data.insert("Scarborough".to_string(), Value::from(370000i64));
    let mut top = serde_json::Map::new();
    top.insert("name".to_string(), Value::String("Population".to_string()));
    top.insert("data".to_string(), Value::Object(top_data));
    top.insert("nested".to_string(), Value::Array(vec![Value::Object(child)]));
    Value::Array(vec![Value::Object(top)])
}

#[test]
fn verbose_raw_bytes_of_scenario() {
    let expected = "[{\"name\":\"Population\",\"data\":{\"North York\":300000,\"Scarborough\":370000},\"nested\":[{\"name\":\"Pop under 12\",\"data\":{\"North York\":120000,\"Scarborough\":140000},\"nested\":[]}]}]";
    assert_eq!(verbose_to_json(&scenario_forest(), false), expected);
}

#[test]
fn compact_raw_bytes_of_scenario() {
    let compact = create_compact_collection(scenario_forest());
    let expected = "{\"Population\":{\"data\":{\"North York\":300000,\"Scarborough\":370000},\"nested\":{\"Pop under 12\":{\"data\":{\"North York\":120000,\"Scarborough\":140000},\"nested\":{}}}}}";
    assert_eq!(compact_to_json(&compact, false), expected);
}

// The reference parser reads both outputs back to the same document; byte
// order of object keys differs (the verbose node keeps `name` first, the
// reference Value sorts its keys).
#[test]
fn raw_output_matches_reference_serializer() {
    let mine = verbose_to_json(&scenario_forest(), false);
    let decoded: Value = serde_json::from_str(&mine).unwrap();
    assert_eq!(decoded, scenario_value());
}

#[test]
fn pretty_output_matches_reference_serializer() {
    let mine = verbose_to_json(&scenario_forest(), true);
    let decoded: Value = serde_json::from_str(&mine).unwrap();
    assert_eq!(decoded, scenario_value());
}

fn rebuild(v: &Value) -> VerboseEntry {
    let obj = v.as_object().unwrap();
    let mut data = NeighbourhoodPoints { entries: Vec::new() };
    for (k, val) in obj.get("data").unwrap().as_object().unwrap() {
        data.insert(k.clone(), val.as_i64().unwrap());
    }
    VerboseEntry {
        name: obj.get("name").unwrap().as_str().unwrap().to_string(),
        data,
        nested: obj.get("nested").unwrap().as_array().unwrap().iter().map(rebuild).collect(),
    }
}

// Serializing, decoding the bytes back into a tree, and serializing again
// yields byte-identical output.
#[test]
fn round_trip_reserializes_identically() {
    for pretty in [false, true] {
        let first = verbose_to_json(&scenario_forest(), pretty);
        let decoded: Value = serde_json::from_str(&first).unwrap();
        let rebuilt: Vec<VerboseEntry> = decoded.as_array().unwrap().iter().map(rebuild).collect();
        let second = verbose_to_json(&rebuilt, pretty);
        assert_eq!(first, second);
    }
}

#[test]
fn string_escaping_matches_reference_serializer() {
    let name = "a\"b\\c\nd\te\rf\u{8}g\u{c}h\u{1}i\u{1f}j/k";
    let forest = vec![VerboseEntry {
        name: name.to_string(),
        data: points(vec![]),
        nested: vec![],
    }];
    // the escaped name must appear byte for byte as the reference
    // serializer writes the same string
    let reference = serde_json::to_string(&Value::String(name.to_string())).unwrap();
    let mine = verbose_to_json(&forest, false);
    assert!(mine.contains(&reference));
    // and the reference parser must read the very same name back
    let decoded: Value = serde_json::from_str(&mine).unwrap();
    assert_eq!(decoded[0]["name"].as_str().unwrap(), name);
}

#[test]
fn extreme_numbers_match_reference_serializer() {
    let forest = vec![VerboseEntry {
        name: "edge".to_string(),
        data: points(vec![("max", i64::MAX), ("min", i64::MIN), ("zero", 0)]),
        nested: vec![],
    }];
    let text = verbose_to_json(&forest, false);
    assert!(text.contains("\"max\":9223372036854775807"));
    assert!(text.contains("\"min\":-9223372036854775808"));
    assert!(text.contains("\"zero\":0"));
}

#[test]
fn empty_collections_serialize_compactly() {
    let empty_forest: Vec<VerboseEntry> = vec![];
    assert_eq!(verbose_to_json(&empty_forest, false), "[]");
    assert_eq!(verbose_to_json(&empty_forest, true), "[]");
    let empty_compact = CompactCollection { entries: Vec::new() };
    assert_eq!(compact_to_json(&empty_compact, false), "{}");
    assert_eq!(compact_to_json(&empty_compact, true), "{}");
}

#[test]
fn compact_pretty_matches_reference_serializer() {
    let compact = create_compact_collection(scenario_forest());
    let mut child = serde_json::Map::new();
    let mut child_data = serde_json::Map::new();
    child_data.insert("North York".to_string(), Value::from(120000i64));
    child_data.insert("Scarborough".to_string(), Value::from(140000i64));
    child.insert("data".to_string(), Value::Object(child_data));
    child.insert("nested".to_string(), Value::Object(serde_json::Map::new()));
    let mut nested = serde_json::Map::new();
    nested.insert("Pop under 12".to_string(), Value::Object(child));
    let mut top = serde_json::Map::new();
    let mut top_data = serde_json::Map::new();
    top_data.insert("North York".to_string(), Value::from(300000i64));
    top_data.insert("Scarborough".to_string(), Value::from(370000i64));
    top.insert("data".to_string(), Value::Object(top_data));
    top.insert("nested".to_string(), Value::Object(nested));
    let mut root = serde_json::Map::new();
    root.insert("Population".to_string(), Value::Object(top));
    let value = Value::Object(root);
    assert_eq!(compact_to_json(&compact, true), serde_json::to_string_pretty(&value).unwrap());
    assert_eq!(compact_to_json(&compact, false), serde_json::to_string(&value).unwrap());
}

#[test]
fn point_insert_overwrites_in_place() {
    let mut p = NeighbourhoodPoints { entries: Vec::new() };
    p.insert("a".to_string(), 1);
    p.insert("b".to_string(), 2);
    p.insert("a".to_string(), 3);
    assert_eq!(p.entries, vec![("a".to_string(), 3), ("b".to_string(), 2)]);
}

#[test]
fn compact_entry_construction() {
    let e = CompactEntry {
        data: points(vec![("a", 1)]),
        nested: CompactCollection { entries: Vec::new() },
    };
    let mut c = CompactCollection { entries: Vec::new() };
    c.insert("only".to_string(), e);
    assert_eq!(compact_to_json(&c, false), "{\"only\":{\"data\":{\"a\":1},\"nested\":{}}}");
}
