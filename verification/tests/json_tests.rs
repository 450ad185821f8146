use mcpdoctor::json::{assoc_insert, canonical_json, JsonValue};

#[test]
fn canonical_text_is_compact() {
    let v = JsonValue::Object(vec![
        ("a".to_string(), JsonValue::Array(vec![JsonValue::Number("1".into()), JsonValue::Null, JsonValue::Bool(true)])),
        ("b".to_string(), JsonValue::String("x\"y\n".into())),
    ]);
    assert_eq!(canonical_json(&v), "{\"a\":[1,null,true],\"b\":\"x\\\"y\\n\"}");
}

#[test]
fn string_literals_are_escaped() {
    assert_eq!(canonical_json(&JsonValue::String("tab\there".into())), "\"tab\\there\"");
    assert_eq!(canonical_json(&JsonValue::String("\u{1f}".into())), "\"\\u001f\"");
}

#[test]
fn sorted_insert_replaces_and_orders() {
    let mut es: Vec<(String, u32)> = Vec::new();
    assoc_insert(&mut es, "b".into(), 1);
    assoc_insert(&mut es, "a".into(), 2);
    assoc_insert(&mut es, "b".into(), 3);
    assert_eq!(es, vec![("a".to_string(), 2), ("b".to_string(), 3)]);
}

#[test]
fn canonical_object_keys_are_sorted_and_last_entry_wins() {
    let v = JsonValue::Object(vec![
        ("b".to_string(), JsonValue::Number("1".into())),
        ("a".to_string(), JsonValue::Number("2".into())),
        ("b".to_string(), JsonValue::Number("3".into())),
    ]);
    assert_eq!(canonical_json(&v), "{\"a\":2,\"b\":3}");
}

#[test]
fn canonical_nested_objects_are_sorted() {
    let inner = JsonValue::Object(vec![
        ("z".to_string(), JsonValue::Null),
        ("m".to_string(), JsonValue::Bool(false)),
    ]);
    let v = JsonValue::Object(vec![("k".to_string(), inner)]);
    assert_eq!(canonical_json(&v), "{\"k\":{\"m\":false,\"z\":null}}");
}
