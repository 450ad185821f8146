use mcpdoctor::hash::{server_hash, sha256_hex, tool_hash, tool_pin_map};
use mcpdoctor::json::JsonValue;
use mcpdoctor::types::ToolDef;

fn s(t: &str) -> JsonValue {
    JsonValue::String(t.to_string())
}

fn obj(mut es: Vec<(&str, JsonValue)>) -> JsonValue {
    es.sort_by(|a, b| a.0.cmp(b.0));
    JsonValue::Object(es.into_iter().map(|(k, v)| (k.to_string(), v)).collect())
}

fn tool(name: &str, desc: &str) -> ToolDef {
    ToolDef {
        name: name.into(),
        title: None,
        description: Some(desc.into()),
        input_schema: Some(obj(vec![
            ("type", s("object")),
            (
                "properties",
                obj(vec![("b", obj(vec![("type", s("integer"))])), ("a", obj(vec![("type", s("integer"))]))]),
            ),
        ])),
        output_schema: None,
        extra: Vec::new(),
    }
}

#[test]
fn stable_tool_hash() {
    let t = tool("add", "Adds two numbers");
    let h1 = tool_hash(&t);
    let h2 = tool_hash(&t);
    assert_eq!(h1, h2);
    assert!(h1.starts_with("sha256:"));
}

#[test]
fn sha256_of_empty_input() {
    assert_eq!(
        sha256_hex(b""),
        "sha256:e3b0c44298fc1c149afbf4c8996fb92427ae41e4649b934ca495991b7852b855"
    );
    assert_eq!(
        sha256_hex(b"abc"),
        "sha256:ba7816bf8f01cfea414140de5dae2223b00361a396177a9cb410ff61f20015ad"
    );
}

#[test]
fn tool_hash_changes_with_description() {
    assert_ne!(tool_hash(&tool("add", "Adds two numbers")), tool_hash(&tool("add", "Adds two numbers.")));
}

#[test]
fn pin_map_is_sorted_by_name() {
    let tools = vec![tool("zeta", "z"), tool("alpha", "a")];
    let m = tool_pin_map(&tools);
    assert_eq!(m.len(), 2);
    assert_eq!(m[0].0, "alpha");
    assert_eq!(m[1].0, "zeta");
    assert_eq!(m[0].1, tool_hash(&tools[1]));
    assert_eq!(m[1].1, tool_hash(&tools[0]));
}

#[test]
fn server_hash_ignores_tool_order() {
    let a = vec![tool("zeta", "z"), tool("alpha", "a")];
    let b = vec![tool("alpha", "a"), tool("zeta", "z")];
    assert_eq!(server_hash(&a), server_hash(&b));
    assert!(server_hash(&a).starts_with("sha256:"));
}
