use mcpdoctor::client::{
    classify_reply, content_length, encode_notification, encode_request, frame_message, header_line_kind,
    is_header_framed, ndjson_payload, page_step, ClientError, Framing, HeaderLine, Inventory, PageStep, Reply,
    InitializeResult, ServerInfo,
};
use mcpdoctor::json::JsonValue;
use mcpdoctor::types::ToolDef;

fn s(t: &str) -> JsonValue {
    JsonValue::String(t.to_string())
}

fn n(t: &str) -> JsonValue {
    JsonValue::Number(t.to_string())
}

fn obj(mut es: Vec<(&str, JsonValue)>) -> JsonValue {
    es.sort_by(|a, b| a.0.cmp(b.0));
    JsonValue::Object(es.into_iter().map(|(k, v)| (k.to_string(), v)).collect())
}

#[test]
fn framing_of_messages() {
    assert_eq!(frame_message(b"{}", Framing::Ndjson), b"{}\n".to_vec());
    assert_eq!(frame_message(b"{}", Framing::ContentLength), b"Content-Length: 2\r\n\r\n{}".to_vec());
    assert_eq!(Framing::default(), Framing::Ndjson);
}

#[test]
fn request_and_notification_bytes() {
    let params = obj(vec![("cursor", s("c1"))]);
    let req = encode_request(7, "tools/list", &params, Framing::Ndjson);
    assert_eq!(
        String::from_utf8(req).unwrap(),
        "{\"id\":7,\"jsonrpc\":\"2.0\",\"method\":\"tools/list\",\"params\":{\"cursor\":\"c1\"}}\n"
    );
    let note = encode_notification("notifications/initialized", &obj(vec![]), Framing::ContentLength);
    let body = "{\"jsonrpc\":\"2.0\",\"method\":\"notifications/initialized\",\"params\":{}}";
    assert_eq!(String::from_utf8(note).unwrap(), format!("Content-Length: {}\r\n\r\n{}", body.len(), body));
}

#[test]
fn header_detection_and_lines() {
    assert!(is_header_framed(b"Content-Length: 5\r\n"));
    assert!(is_header_framed(b"content-length:5"));
    assert!(!is_header_framed(b"{\"jsonrpc\":\"2.0\"}"));
    assert_eq!(header_line_kind("\r\n", 3), HeaderLine::End);
    assert_eq!(header_line_kind("\n", 0), HeaderLine::End);
    assert_eq!(header_line_kind("X: y\r\n", 63), HeaderLine::Header);
    assert_eq!(header_line_kind("X: y\r\n", 64), HeaderLine::TooMany);
}

#[test]
fn content_length_parsing() {
    let h = |v: &[&str]| v.iter().map(|s| s.to_string()).collect::<Vec<_>>();
    assert_eq!(content_length(&h(&["Content-Type: x\r\n", "Content-Length: 42\r\n"])).unwrap(), 42);
    assert_eq!(content_length(&h(&["CONTENT-LENGTH:  +7 \r\n"])).unwrap(), 7);
    assert_eq!(content_length(&h(&["content-length: 1\r\n", "content-length: 2\r\n"])).unwrap(), 2);
    assert!(matches!(content_length(&h(&["Content-Type: x\r\n"])), Err(ClientError::MissingContentLength)));
    assert!(matches!(content_length(&h(&["Content-Length: 4x\r\n"])), Err(ClientError::BadContentLength)));
    assert!(matches!(content_length(&h(&["Content-Length: -1\r\n"])), Err(ClientError::BadContentLength)));
    let big = content_length(&h(&["Content-Length: 16777217\r\n"])).unwrap_err();
    assert_eq!(big.message(), "MCP body too large: 16777217");
    assert_eq!(content_length(&h(&["Content-Length: 16777216\r\n"])).unwrap(), 16777216);
}

#[test]
fn ndjson_lines() {
    assert_eq!(ndjson_payload("  {\"a\":1}\r\n").unwrap(), "{\"a\":1}");
    let e = ndjson_payload(" \r\n").unwrap_err();
    assert_eq!(e.message(), "empty NDJSON line from MCP server");
}

#[test]
fn replies_are_classified() {
    let note = obj(vec![("jsonrpc", s("2.0")), ("method", s("notifications/progress"))]);
    assert!(matches!(classify_reply(note, 1, "tools/list"), Reply::Skip));
    let other = obj(vec![("id", n("2")), ("result", obj(vec![]))]);
    assert!(matches!(classify_reply(other, 1, "tools/list"), Reply::Other));
    let as_text = obj(vec![("id", s("1")), ("result", obj(vec![]))]);
    assert!(matches!(classify_reply(as_text, 1, "tools/list"), Reply::Other));
    let ok = obj(vec![("id", n("1")), ("result", obj(vec![("tools", JsonValue::Array(vec![]))]))]);
    match classify_reply(ok, 1, "tools/list") {
        Reply::Done(Ok(JsonValue::Object(es))) => assert_eq!(es[0].0, "tools"),
        other => panic!("unexpected {other:?}"),
    }
    let err = obj(vec![("id", n("1")), ("error", obj(vec![("code", n("-32601"))]))]);
    match classify_reply(err, 1, "tools/list") {
        Reply::Done(Err(e)) => assert_eq!(e.message(), "MCP error on tools/list: {\"code\":-32601}"),
        other => panic!("unexpected {other:?}"),
    }
    let missing = obj(vec![("id", n("1"))]);
    match classify_reply(missing, 1, "initialize") {
        Reply::Done(Err(e)) => assert_eq!(e.message(), "MCP response missing result for initialize"),
        other => panic!("unexpected {other:?}"),
    }
}

#[test]
fn pagination_steps() {
    assert!(matches!(page_step(Some("c2".into()), 10), PageStep::Next(c) if c == "c2"));
    assert!(matches!(page_step(Some(String::new()), 10), PageStep::Finished));
    assert!(matches!(page_step(None, 20_000), PageStep::TooMany));
    assert!(matches!(page_step(None, 5_001), PageStep::TooMany));
    assert!(matches!(page_step(None, 5_000), PageStep::Finished));
    assert!(matches!(page_step(Some("c".into()), 5_001), PageStep::TooMany));
    assert!(matches!(page_step(Some("c".into()), 5_000), PageStep::Next(_)));
    assert_eq!(ClientError::TooManyTools.message(), "tools/list returned more than 5000 tools");
}

#[test]
fn inventory_as_list_result() {
    let inv = Inventory {
        initialize: InitializeResult {
            protocol_version: "2024-11-05".into(),
            capabilities: obj(vec![]),
            server_info: ServerInfo { name: "srv".into(), version: "1".into() },
        },
        tools: vec![ToolDef {
            name: "a".into(),
            title: None,
            description: None,
            input_schema: None,
            output_schema: None,
            extra: vec![],
        }],
        raw_tools_list: obj(vec![]),
    };
    let list = inv.tools_list_result();
    assert_eq!(list.tools.len(), 1);
    assert!(list.next_cursor.is_none());
}

#[test]
fn error_messages() {
    assert_eq!(ClientError::TooManyHeaders.message(), "too many MCP header lines");
    assert_eq!(
        ClientError::NoMatchingReply { method: "tools/list".into() }.message(),
        "too many MCP messages without matching id for tools/list"
    );
    assert_eq!(ClientError::MissingContentLength.message(), "missing Content-Length in MCP response");
    assert_eq!(ClientError::BadContentLength.message(), "parse Content-Length");
}
