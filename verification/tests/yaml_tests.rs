use serde_yaml::Value;

// The text encoding is an opaque boundary: these tests only check that
// a mapping shaped like a stored tree survives one trip through the
// encoder unchanged, which together with the verified record fold gives
// the full storage round trip.

fn mapping(entries: Vec<(&str, Value)>) -> Value {
    let mut m = serde_yaml::Mapping::new();
    for (k, v) in entries {
        m.insert(Value::String(k.to_string()), v);
    }
    Value::Mapping(m)
}

#[test]
fn tree_shaped_document_round_trips_through_text() {
    let window = mapping(vec![("app_id", Value::String("term".to_string()))]);
    let container = mapping(vec![
        ("layout", Value::String("splith".to_string())),
        ("nodes", Value::Sequence(vec![window])),
    ]);
    let workspace = mapping(vec![
        ("name", Value::String("1".to_string())),
        ("type", Value::String("workspace".to_string())),
        ("nodes", Value::Sequence(vec![container])),
    ]);
    let doc = Value::Sequence(vec![workspace]);
    let text = serde_yaml::to_string(&doc).unwrap();
    let back: Value = serde_yaml::from_str(&text).unwrap();
    assert_eq!(back, doc);
    let ws = &back[0];
    assert_eq!(ws["name"], Value::String("1".to_string()));
    assert_eq!(
        ws["nodes"][0]["layout"],
        Value::String("splith".to_string())
    );
}

#[test]
fn omitted_fields_stay_omitted_in_text() {
    let doc = Value::Sequence(vec![mapping(vec![(
        "name",
        Value::String("web".to_string()),
    )])]);
    let text = serde_yaml::to_string(&doc).unwrap();
    assert!(text.contains("name"));
    assert!(!text.contains("type"));
    assert!(!text.contains("timeout"));
}
