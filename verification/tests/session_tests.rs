use mcpdoctor::client::{
    session_step, ClientError, InitializeResult, ServerInfo, Session, SessionAction, SessionEvent,
    MAX_INVENTORY_TOOLS,
};
use mcpdoctor::json::{canonical_json, JsonValue};
use mcpdoctor::types::{ToolDef, ToolsListResult};

fn init_result() -> InitializeResult {
    InitializeResult {
        protocol_version: "2024-11-05".into(),
        capabilities: JsonValue::Object(Vec::new()),
        server_info: ServerInfo { name: "srv".into(), version: "9".into() },
    }
}

fn tool(name: &str) -> ToolDef {
    ToolDef { name: name.into(), title: None, description: None, input_schema: None, output_schema: None, extra: Vec::new() }
}

fn page(names: &[&str], cursor: Option<&str>) -> ToolsListResult {
    ToolsListResult { tools: names.iter().map(|n| tool(n)).collect(), next_cursor: cursor.map(|c| c.to_string()) }
}

fn request(a: SessionAction) -> (u64, String, String) {
    match a {
        SessionAction::Request { id, method, params } => (id, method, canonical_json(&params)),
        _ => panic!("expected a request"),
    }
}

fn listing() -> Session {
    let (s, _) = session_step(Session::Start, SessionEvent::Begin { client_version: "1.0".into() });
    let (s, _) = session_step(s, SessionEvent::Initialized(init_result()));
    let (s, _) = session_step(s, SessionEvent::Notified);
    s
}

#[test]
fn session_starts_with_initialize() {
    let (s, a) = session_step(Session::Start, SessionEvent::Begin { client_version: "1.0".into() });
    assert!(matches!(s, Session::AwaitInitialize));
    let (id, m, p) = request(a);
    assert_eq!(id, 1);
    assert_eq!(m, "initialize");
    assert_eq!(
        p,
        "{\"capabilities\":{\"roots\":{\"listChanged\":false},\"sampling\":{}},\"clientInfo\":{\"name\":\"mcpdoctor\",\"version\":\"1.0\"},\"protocolVersion\":\"2024-11-05\"}"
    );
}

#[test]
fn session_notifies_then_lists() {
    let (s, _) = session_step(Session::Start, SessionEvent::Begin { client_version: "1.0".into() });
    let (s, a) = session_step(s, SessionEvent::Initialized(init_result()));
    match a {
        SessionAction::Notify { method, params } => {
            assert_eq!(method, "notifications/initialized");
            assert_eq!(canonical_json(&params), "{}");
        }
        _ => panic!("expected the notification"),
    }
    let (s, a) = session_step(s, SessionEvent::Notified);
    assert!(matches!(s, Session::Listing { .. }));
    assert_eq!(request(a), (2, "tools/list".to_string(), "{}".to_string()));
}

#[test]
fn session_follows_cursors_and_joins_pages() {
    let s = listing();
    let raw1 = JsonValue::Object(vec![("page".into(), JsonValue::Number("1".into()))]);
    let (s, a) = session_step(s, SessionEvent::Page { page: page(&["a", "b"], Some("c2")), raw: raw1 });
    assert_eq!(request(a), (3, "tools/list".to_string(), "{\"cursor\":\"c2\"}".to_string()));
    let raw2 = JsonValue::Object(vec![("page".into(), JsonValue::Number("2".into()))]);
    let (s, a) = session_step(s, SessionEvent::Page { page: page(&["c"], Some("")), raw: raw2 });
    assert!(matches!(s, Session::Closed));
    match a {
        SessionAction::Finish(inv) => {
            let names: Vec<&str> = inv.tools.iter().map(|t| t.name.as_str()).collect();
            assert_eq!(names, vec!["a", "b", "c"]);
            assert_eq!(canonical_json(&inv.raw_tools_list), "{\"page\":2}");
            assert_eq!(inv.initialize.server_info.name, "srv");
        }
        _ => panic!("expected the inventory"),
    }
}

#[test]
fn session_refuses_an_oversized_inventory() {
    let s = listing();
    let names: Vec<String> = (0..MAX_INVENTORY_TOOLS + 1).map(|i| format!("t{i}")).collect();
    let refs: Vec<&str> = names.iter().map(|n| n.as_str()).collect();
    let (s, a) = session_step(s, SessionEvent::Page { page: page(&refs, None), raw: JsonValue::Null });
    assert!(matches!(s, Session::Closed));
    assert!(matches!(a, SessionAction::Fail(ClientError::TooManyTools)));
}

#[test]
fn session_accepts_exactly_the_limit() {
    let s = listing();
    let names: Vec<String> = (0..MAX_INVENTORY_TOOLS).map(|i| format!("t{i}")).collect();
    let refs: Vec<&str> = names.iter().map(|n| n.as_str()).collect();
    let (_, a) = session_step(s, SessionEvent::Page { page: page(&refs, None), raw: JsonValue::Null });
    match a {
        SessionAction::Finish(inv) => assert_eq!(inv.tools.len(), MAX_INVENTORY_TOOLS),
        _ => panic!("expected the inventory"),
    }
}

#[test]
fn session_awaits_only_the_expected_event() {
    assert!(Session::Start.awaits_event(&SessionEvent::Begin { client_version: "x".into() }));
    assert!(!Session::Start.awaits_event(&SessionEvent::Notified));
    assert!(!Session::Closed.awaits_event(&SessionEvent::Notified));
    assert!(Session::AwaitInitialize.awaits_event(&SessionEvent::Initialized(init_result())));
}

#[test]
fn session_numbers_each_page_request_in_turn() {
    let mut s = listing();
    for (k, c) in ["p3", "p4", "p5"].iter().enumerate() {
        let (next, a) = session_step(s, SessionEvent::Page { page: page(&["t"], Some(c)), raw: JsonValue::Null });
        let (id, m, p) = request(a);
        assert_eq!(id, 3 + k as u64);
        assert_eq!(m, "tools/list");
        assert_eq!(p, format!("{{\"cursor\":\"{c}\"}}"));
        s = next;
    }
}
