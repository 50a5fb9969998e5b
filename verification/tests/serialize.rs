use to_hood_profile_serializer::CompactCollection;
use to_hood_profile_serializer::CompactEntry;
use to_hood_profile_serializer::NeighbourhoodPoints;
use to_hood_profile_serializer::VerboseEntry;
use to_hood_profile_serializer::json::compact_to_json;
use to_hood_profile_serializer::json::verbose_to_json;

fn points(pairs: Vec<(&str, i64)>) -> NeighbourhoodPoints {
    let mut p = NeighbourhoodPoints { entries: Vec::new() };
    for (name, value) in pairs {
        p.insert(name.to_string(), value);
    }
    p
}

#[test]
fn test_serialize_compact() {
    let mut dataset = CompactCollection { entries: Vec::new() };
    let mut nested = CompactCollection { entries: Vec::new() };
    nested.insert(
        "Pop under 12".to_string(),
        CompactEntry {
            data: points(vec![("Scarborough", 140000), ("North York", 120000)]),
            nested: CompactCollection { entries: Vec::new() },
        },
    );
    dataset.insert(
        "Population".to_string(),
        CompactEntry {
            data: points(vec![("North York", 300000), ("Scarborough", 370000)]),
            nested,
        },
    );
    println!("{}", compact_to_json(&dataset, true));
}

#[test]
fn test_serialize_verbose() {
    let dataset = VerboseEntry {
        name: "Population".to_string(),
        data: points(vec![("North York", 300000), ("Scarborough", 370000)]),
        nested: vec![VerboseEntry {
            name: "Pop under 12".to_string(),
            data: points(vec![("Scarborough", 140000), ("North York", 120000)]),
            nested: vec![],
        }],
    };
    println!("{}", verbose_to_json(&vec![dataset], true));
}
