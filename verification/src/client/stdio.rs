//! The MCP stdio wire: framing, headers, request text and the decisions
//! taken on each message that a server sends back.
use vstd::prelude::*;
use vstd::utf8::encode_utf8;
use std::time::Duration;
use crate::json::{assoc_get, canon, canonical_json, json_quote, json_string_literal, member, member_index, JsonValue};
use crate::text::{
    chars_of, decimal, is_prefix, lower, parse_usize, parse_usize_spec, push_decimal, push_decimal_u64,
    starts_with_str, str_eq, string_from_chars, to_ascii_lowercase, trim, trim_str,
};

verus! {

/// Wire framing for MCP stdio.
///
/// - `Ndjson`: one JSON document per line (Python `mcp` SDK / FastMCP)
/// - `ContentLength`: LSP-style `Content-Length` headers (TypeScript SDK)
#[derive(Debug, Clone, Copy, PartialEq, Eq, Structural)]
pub enum Framing {
    Ndjson,
    ContentLength,
}

impl Default for Framing {
    fn default() -> (r: Framing)
        ensures
            r == Framing::Ndjson,
    {
        Framing::Ndjson
    }
}

/// How to start a server over stdio.
#[derive(Debug)]
pub struct StdioTarget {
    pub command: String,
    pub args: Vec<String>,
    pub env: Vec<(String, String)>,
    pub cwd: Option<String>,
    pub timeout: Duration,
    pub framing: Framing,
}

/// Messages read while waiting for one reply before giving up.
pub const MAX_REPLY_MESSAGES: usize = 32;

/// Header lines accepted before a `Content-Length` body.
pub const MAX_HEADER_LINES: usize = 64;

/// Largest `Content-Length` body accepted.
pub const MAX_BODY_BYTES: usize = 16 * 1024 * 1024;

/// Most tools accepted in one inventory gathered over `tools/list` pages.
pub const MAX_INVENTORY_TOOLS: usize = 5_000;

/// Why a stdio session with a server failed.
#[derive(Debug)]
pub enum ClientError {
    TooManyHeaders,
    BadContentLength,
    MissingContentLength,
    BodyTooLarge { len: usize },
    EmptyLine,
    ServerError { method: String, error: JsonValue },
    MissingResult { method: String },
    NoMatchingReply { method: String },
    TooManyTools,
}

impl ClientError {
    /// The text of the error.
    pub open spec fn spec_message(&self) -> Seq<char> {
        match self {
            ClientError::TooManyHeaders => "too many MCP header lines"@,
            ClientError::BadContentLength => "parse Content-Length"@,
            ClientError::MissingContentLength => "missing Content-Length in MCP response"@,
            ClientError::BodyTooLarge { len } => "MCP body too large: "@ + decimal(*len as nat),
            ClientError::EmptyLine => "empty NDJSON line from MCP server"@,
            ClientError::ServerError { method, error } => "MCP error on "@ + method@ + ": "@ + canon(*error),
            ClientError::MissingResult { method } => "MCP response missing result for "@ + method@,
            ClientError::NoMatchingReply { method } => "too many MCP messages without matching id for "@
                + method@,
            ClientError::TooManyTools => "tools/list returned more than 5000 tools"@,
        }
    }

    /// The text of the error.
    pub fn message(&self) -> (r: String)
        ensures
            r@ == self.spec_message(),
    {
        match self {
            ClientError::TooManyHeaders => "too many MCP header lines".to_owned(),
            ClientError::BadContentLength => "parse Content-Length".to_owned(),
            ClientError::MissingContentLength => "missing Content-Length in MCP response".to_owned(),
            ClientError::BodyTooLarge { len } => {
                let mut r = "MCP body too large: ".to_owned();
                push_decimal(&mut r, *len);
                r
            },
            ClientError::EmptyLine => "empty NDJSON line from MCP server".to_owned(),
            ClientError::ServerError { method, error } => {
                let mut r = "MCP error on ".to_owned();
                r.append(method.as_str());
                r.append(": ");
                let t = canonical_json(error);
                r.append(t.as_str());
                r
            },
            ClientError::MissingResult { method } => {
                let mut r = "MCP response missing result for ".to_owned();
                r.append(method.as_str());
                r
            },
            ClientError::NoMatchingReply { method } => {
                let mut r = "too many MCP messages without matching id for ".to_owned();
                r.append(method.as_str());
                r
            },
            ClientError::TooManyTools => "tools/list returned more than 5000 tools".to_owned(),
        }
    }
}

// ---------------------------------------------------------------------
// Writing
// ---------------------------------------------------------------------

/// The bytes written for one message `p` under `framing`.
pub open spec fn framed(p: Seq<u8>, framing: Framing) -> Seq<u8> {
    match framing {
        Framing::Ndjson => p.push(10u8),
        Framing::ContentLength => encode_utf8("Content-Length: "@ + decimal(p.len()) + "\r\n\r\n"@) + p,
    }
}

/// Appends the bytes of `b` to `out`.
fn push_bytes(out: &mut Vec<u8>, b: &[u8])
    ensures
        final(out)@ == old(out)@ + b@,
{
    let ghost start = out@;
    let n = b.len();
    for i in 0..n
        invariant
            n == b@.len(),
            out@ == start + b@.take(i as int),
    {
        out.push(b[i]);
        assert(b@.take(i + 1) =~= b@.take(i as int).push(b@[i as int]));
        assert(out@ =~= start + b@.take(i + 1));
    }
    assert(b@.take(n as int) =~= b@);
}

/// Frames one message body for the wire.
pub fn frame_message(payload: &[u8], framing: Framing) -> (r: Vec<u8>)
    ensures
        r@ == framed(payload@, framing),
{
    let mut out: Vec<u8> = Vec::new();
    match framing {
        Framing::Ndjson => {
            push_bytes(&mut out, payload);
            out.push(10u8);
            assert(out@ =~= payload@.push(10u8));
        },
        Framing::ContentLength => {
            let mut header = "Content-Length: ".to_owned();
            push_decimal(&mut header, payload.len());
            header.append("\r\n\r\n");
            push_bytes(&mut out, header.as_str().as_bytes());
            push_bytes(&mut out, payload);
            assert(out@ =~= encode_utf8(header@) + payload@);
        },
    }
    out
}

/// The JSON-RPC request `{"id", "jsonrpc", "method", "params"}` as compact
/// JSON with its keys in order.
pub open spec fn request_text(id: u64, method: Seq<char>, params: JsonValue) -> Seq<char> {
    "{\"id\":"@ + decimal(id as nat) + ",\"jsonrpc\":\"2.0\",\"method\":"@ + json_quote(method) + ",\"params\":"@
        + canon(params) + "}"@
}

/// The JSON-RPC notification `{"jsonrpc", "method", "params"}`.
pub open spec fn notification_text(method: Seq<char>, params: JsonValue) -> Seq<char> {
    "{\"jsonrpc\":\"2.0\",\"method\":"@ + json_quote(method) + ",\"params\":"@ + canon(params) + "}"@
}

/// The framed bytes of request number `id`.
pub fn encode_request(id: u64, method: &str, params: &JsonValue, framing: Framing) -> (r: Vec<u8>)
    ensures
        r@ == framed(encode_utf8(request_text(id, method@, *params)), framing),
{
    let mut t = "{\"id\":".to_owned();
    push_decimal_u64(&mut t, id);
    t.append(",\"jsonrpc\":\"2.0\",\"method\":");
    let q = json_string_literal(method);
    t.append(q.as_str());
    t.append(",\"params\":");
    let p = canonical_json(params);
    t.append(p.as_str());
    t.append("}");
    frame_message(t.as_str().as_bytes(), framing)
}

/// The framed bytes of a notification.
pub fn encode_notification(method: &str, params: &JsonValue, framing: Framing) -> (r: Vec<u8>)
    ensures
        r@ == framed(encode_utf8(notification_text(method@, *params)), framing),
{
    let mut t = "{\"jsonrpc\":\"2.0\",\"method\":".to_owned();
    let q = json_string_literal(method);
    t.append(q.as_str());
    t.append(",\"params\":");
    let p = canonical_json(params);
    t.append(p.as_str());
    t.append("}");
    frame_message(t.as_str().as_bytes(), framing)
}

// ---------------------------------------------------------------------
// Reading
// ---------------------------------------------------------------------

/// `b` starts with `p`.
pub open spec fn bytes_start_with(b: Seq<u8>, p: Seq<u8>) -> bool {
    p.len() <= b.len() && b.take(p.len() as int) == p
}

fn starts_with_bytes(b: &[u8], p: &[u8]) -> (r: bool)
    ensures
        r == bytes_start_with(b@, p@),
{
    if p.len() > b.len() {
        return false;
    }
    let n = p.len();
    for i in 0..n
        invariant
            n == p@.len(),
            n <= b@.len(),
            forall|k: int| 0 <= k < i ==> b@[k] == p@[k],
    {
        if b[i] != p[i] {
            assert(b@.take(n as int)[i as int] != p@[i as int]);
            return false;
        }
    }
    assert(b@.take(n as int) =~= p@);
    true
}

/// Buffered bytes that open a `Content-Length` framed message.
pub open spec fn header_framed(b: Seq<u8>) -> bool {
    bytes_start_with(b, encode_utf8("Content-Length:"@)) || bytes_start_with(b, encode_utf8("content-length:"@))
}

/// Whether the next message is `Content-Length` framed (either framing
/// is accepted on read).
pub fn is_header_framed(buf: &[u8]) -> (r: bool)
    ensures
        r == header_framed(buf@),
{
    starts_with_bytes(buf, "Content-Length:".as_bytes()) || starts_with_bytes(buf, "content-length:".as_bytes())
}

/// What a header line read before a body means.
#[derive(Debug, Clone, Copy, PartialEq, Eq, Structural)]
pub enum HeaderLine {
    /// The blank line that ends the headers.
    End,
    /// One more header.
    Header,
    /// One header too many.
    TooMany,
}

/// The kind of header line `line`, with `count` headers already kept.
pub open spec fn header_kind(line: Seq<char>, count: nat) -> HeaderLine {
    if line == "\r\n"@ || line == "\n"@ {
        HeaderLine::End
    } else if count + 1 > MAX_HEADER_LINES {
        HeaderLine::TooMany
    } else {
        HeaderLine::Header
    }
}

/// Classifies a header line; `count` headers were kept before it.
pub fn header_line_kind(line: &str, count: usize) -> (r: HeaderLine)
    ensures
        r == header_kind(line@, count as nat),
{
    if str_eq(line, "\r\n") || str_eq(line, "\n") {
        HeaderLine::End
    } else if count >= MAX_HEADER_LINES {
        HeaderLine::TooMany
    } else {
        HeaderLine::Header
    }
}

/// `s` without trailing `\r` and `\n` characters.
pub open spec fn trim_end_crlf(s: Seq<char>) -> Seq<char>
    decreases s.len(),
{
    if s.len() > 0 && (s.last() == '\r' || s.last() == '\n') {
        trim_end_crlf(s.drop_last())
    } else {
        s
    }
}

/// The length text of a `Content-Length` header (matched in any ASCII
/// case), or `None` for another header.
pub open spec fn length_text(line: Seq<char>) -> Option<Seq<char>> {
    let l = lower(line);
    if is_prefix("content-length:"@, l) {
        Some(trim_end_crlf(trim(l.skip(15))))
    } else {
        None
    }
}

/// The announced length over the first `n` headers: the last one wins;
/// `None` when one of them does not parse.
pub open spec fn length_scan(hs: Seq<Seq<char>>, n: int) -> Option<Option<usize>>
    decreases n,
{
    if n <= 0 || n > hs.len() {
        Some(None)
    } else {
        match length_scan(hs, n - 1) {
            None => None,
            Some(prev) => match length_text(hs[n - 1]) {
                None => Some(prev),
                Some(t) => match parse_usize_spec(t) {
                    None => None,
                    Some(v) => Some(Some(v)),
                },
            },
        }
    }
}

/// The texts of a list of strings.
pub open spec fn lines_view(v: Seq<String>) -> Seq<Seq<char>> {
    v.map_values(|s: String| s@)
}

/// Body length announced by headers `hs`, and the error when there is none
/// that can be used.
pub open spec fn content_length_spec(hs: Seq<Seq<char>>) -> Result<usize, ClientError> {
    match length_scan(hs, hs.len() as int) {
        None => Err(ClientError::BadContentLength),
        Some(None) => Err(ClientError::MissingContentLength),
        Some(Some(len)) => if len > MAX_BODY_BYTES {
            Err(ClientError::BodyTooLarge { len })
        } else {
            Ok(len)
        },
    }
}

fn strip_crlf_end(s: &str) -> (r: String)
    ensures
        r@ == trim_end_crlf(s@),
{
    let cs = chars_of(s);
    let mut n = cs.len();
    assert(cs@.take(n as int) =~= cs@);
    while n > 0 && (cs[n - 1] == '\r' || cs[n - 1] == '\n')
        invariant
            n <= cs@.len(),
            cs@ == s@,
            trim_end_crlf(cs@.take(n as int)) == trim_end_crlf(s@),
        decreases n,
    {
        assert(cs@.take(n as int).drop_last() =~= cs@.take(n - 1));
        n = n - 1;
    }
    let mut r = String::new();
    for i in 0..n
        invariant
            n <= cs@.len(),
            r@ == cs@.take(i as int),
    {
        crate::text::push_char(&mut r, cs[i]);
        assert(cs@.take(i + 1) =~= cs@.take(i as int).push(cs@[i as int]));
    }
    r
}

/// The length text of one header line.
fn header_length_text(line: &str) -> (r: Option<String>)
    ensures
        match r {
            Some(t) => length_text(line@) == Some(t@),
            None => length_text(line@) is None,
        },
{
    let l = to_ascii_lowercase(line);
    if !starts_with_str(l.as_str(), "content-length:") {
        return None;
    }
    let cs = chars_of(l.as_str());
    proof {
        reveal_strlit("content-length:");
    }
    let rest = string_from_chars(crate::text::slice_skip(cs.as_slice(), 15).as_slice());
    let t = trim_str(rest.as_str());
    Some(strip_crlf_end(t.as_str()))
}

/// The body length announced by the headers of one message.
pub fn content_length(headers: &[String]) -> (r: Result<usize, ClientError>)
    ensures
        match (r, content_length_spec(lines_view(headers@))) {
            (Ok(a), Ok(b)) => a == b,
            (Err(ClientError::BadContentLength), Err(ClientError::BadContentLength)) => true,
            (Err(ClientError::MissingContentLength), Err(ClientError::MissingContentLength)) => true,
            (Err(ClientError::BodyTooLarge { len: a }), Err(ClientError::BodyTooLarge { len: b })) => a == b,
            _ => false,
        },
{
    let ghost hs = lines_view(headers@);
    let mut found: Option<usize> = None;
    let n = headers.len();
    for i in 0..n
        invariant
            n == headers@.len(),
            hs == lines_view(headers@),
            length_scan(hs, i as int) == Some(found),
    {
        assert(hs[i as int] == headers@[i as int]@);
        match header_length_text(headers[i].as_str()) {
            None => {},
            Some(t) => match parse_usize(t.as_str()) {
                None => {
                    assert(length_scan(hs, i + 1) is None);
                    assert forall|k: int| i + 1 <= k <= n implies #[trigger] length_scan(hs, k) is None by {
                        lemma_length_scan_stays_bad(hs, i + 1, k);
                    }
                    return Err(ClientError::BadContentLength);
                },
                Some(v) => {
                    found = Some(v);
                },
            },
        }
    }
    match found {
        None => Err(ClientError::MissingContentLength),
        Some(len) => if len > MAX_BODY_BYTES {
            Err(ClientError::BodyTooLarge { len })
        } else {
            Ok(len)
        },
    }
}

/// Once a header fails to parse, the scan stays failed.
proof fn lemma_length_scan_stays_bad(hs: Seq<Seq<char>>, i: int, k: int)
    requires
        0 <= i <= k <= hs.len(),
        length_scan(hs, i) is None,
    ensures
        length_scan(hs, k) is None,
    decreases k - i,
{
    if i < k {
        lemma_length_scan_stays_bad(hs, i, k - 1);
    }
}

/// One NDJSON line: its trimmed text, which must not be empty.
pub fn ndjson_payload(line: &str) -> (r: Result<String, ClientError>)
    ensures
        match r {
            Ok(t) => t@ == trim(line@) && t@.len() > 0,
            Err(e) => e is EmptyLine && trim(line@).len() == 0,
        },
{
    let t = trim_str(line);
    if t.unicode_len() == 0 {
        Err(ClientError::EmptyLine)
    } else {
        Ok(t)
    }
}

// ---------------------------------------------------------------------
// Replies
// ---------------------------------------------------------------------

/// What to do with one message read while waiting for reply `id`.
#[derive(Debug)]
pub enum Reply {
    /// A notification: keep reading.
    Skip,
    /// The reply: its result or the error it carries.
    Done(Result<JsonValue, ClientError>),
    /// Some other message: keep reading.
    Other,
}

/// `msg` is a notification: it names a method and carries no id.
pub open spec fn is_notification(msg: JsonValue) -> bool {
    member(msg, "method"@) is Some && member(msg, "id"@) is None
}

/// `msg` carries the id `id`, as a JSON number.
pub open spec fn has_id(msg: JsonValue, id: u64) -> bool {
    match member(msg, "id"@) {
        Some(JsonValue::Number(t)) => t@ == decimal(id as nat),
        _ => false,
    }
}

/// Whether the `id` member of `es` is the number `id`.
fn id_is(es: &Vec<(String, JsonValue)>, id: u64) -> (r: bool)
    ensures
        r == has_id(JsonValue::Object(*es), id),
{
    match member_index(es, "id") {
        None => false,
        Some(i) => match &es[i].1 {
            JsonValue::Number(t) => {
                let mut d = String::new();
                push_decimal_u64(&mut d, id);
                str_eq(t.as_str(), d.as_str())
            },
            _ => false,
        },
    }
}

/// Decides what one message means while waiting for reply `id` to a
/// request for `method`.
pub fn classify_reply(msg: JsonValue, id: u64, method: &str) -> (r: Reply)
    ensures
        is_notification(msg) ==> r is Skip,
        !is_notification(msg) && !has_id(msg, id) ==> r is Other,
        !is_notification(msg) && has_id(msg, id) ==> match member(msg, "error"@) {
            Some(e) => r matches Reply::Done(Err(ClientError::ServerError { method: m, error })) && m@ == method@
                && error == e,
            None => match member(msg, "result"@) {
                Some(x) => r == Reply::Done(Ok(x)),
                None => r matches Reply::Done(Err(ClientError::MissingResult { method: m })) && m@ == method@,
            },
        },
{
    match msg {
        JsonValue::Object(mut es) => {
            let ghost es0 = es@;
            let has_method = member_index(&es, "method").is_some();
            let id_key = member_index(&es, "id");
            if has_method && id_key.is_none() {
                return Reply::Skip;
            }
            if !id_is(&es, id) {
                return Reply::Other;
            }
            match member_index(&es, "error") {
                Some(i) => {
                    let (_, e) = es.remove(i);
                    Reply::Done(Err(ClientError::ServerError { method: method.to_owned(), error: e }))
                },
                None => match member_index(&es, "result") {
                    Some(i) => {
                        let (_, x) = es.remove(i);
                        assert(x == es0[i as int].1);
                        Reply::Done(Ok(x))
                    },
                    None => Reply::Done(Err(ClientError::MissingResult { method: method.to_owned() })),
                },
            }
        },
        _ => Reply::Other,
    }
}

// ---------------------------------------------------------------------
// Pagination
// ---------------------------------------------------------------------

/// What follows one `tools/list` page.
#[derive(Debug)]
pub enum PageStep {
    /// No further page.
    Finished,
    /// Ask for the page at this cursor.
    Next(String),
    /// Too many tools gathered: give up.
    TooMany,
}

/// After a page with cursor `next`, holding `total` tools in all: more
/// than `MAX_INVENTORY_TOOLS` tools is an error whether or not a page
/// follows; otherwise a non-empty cursor asks for the next page.
pub fn page_step(next: Option<String>, total: usize) -> (r: PageStep)
    ensures
        total > MAX_INVENTORY_TOOLS ==> r is TooMany,
        total <= MAX_INVENTORY_TOOLS ==> match next {
            Some(c) => if c@.len() > 0 {
                r == PageStep::Next(c)
            } else {
                r is Finished
            },
            None => r is Finished,
        },
{
    if total > MAX_INVENTORY_TOOLS {
        return PageStep::TooMany;
    }
    match next {
        Some(c) => {
            if c.unicode_len() > 0 {
                PageStep::Next(c)
            } else {
                PageStep::Finished
            }
        },
        None => PageStep::Finished,
    }
}

} // verus!
