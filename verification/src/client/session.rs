//! The order of a stdio inventory session: `initialize`, the
//! `notifications/initialized` notification, then `tools/list` pages
//! followed by their cursors until none is left.  Requests are numbered
//! 1, 2, 3, … in the order they are sent.  Each step takes what the last
//! action brought back and says what to do next; the caller performs the I/O.
use vstd::prelude::*;
use crate::json::JsonValue;
use crate::types::{ToolDef, ToolsListResult};
use super::stdio::{page_step, ClientError, PageStep, MAX_INVENTORY_TOOLS};
use super::{InitializeResult, Inventory};

verus! {

/// Where an inventory session stands.
pub enum Session {
    /// Nothing sent yet.
    Start,
    /// `initialize` sent; its result is awaited.
    AwaitInitialize,
    /// The server answered `initialize`; the notification is next.
    Greeted { initialize: InitializeResult },
    /// The `tools/list` request numbered `id` is out; `tools` were gathered
    /// before it.
    Listing { initialize: InitializeResult, tools: Vec<ToolDef>, id: u64 },
    /// Nothing more to do.
    Closed,
}

/// What the last action brought back.
pub enum SessionEvent {
    /// The server is running; the client announces `client_version`.
    Begin { client_version: String },
    /// The decoded result of `initialize`.
    Initialized(InitializeResult),
    /// The notification was sent.
    Notified,
    /// A decoded `tools/list` result, with the result as received.
    Page { page: ToolsListResult, raw: JsonValue },
}

/// What to do next.
pub enum SessionAction {
    /// Send request number `id` and hand back the result of the reply with
    /// that id.
    Request { id: u64, method: String, params: JsonValue },
    /// Send a notification; no reply follows.
    Notify { method: String, params: JsonValue },
    /// The session is complete.
    Finish(Inventory),
    /// The session failed.
    Fail(ClientError),
}

/// `v` is the JSON string `s`.
pub open spec fn is_json_str(v: JsonValue, s: Seq<char>) -> bool {
    v matches JsonValue::String(t) && t@ == s
}

/// `v` is the empty JSON object.
pub open spec fn is_empty_object(v: JsonValue) -> bool {
    v matches JsonValue::Object(es) && es@.len() == 0
}

/// `v` is `{"cursor": c}`.
pub open spec fn is_cursor_params(v: JsonValue, c: Seq<char>) -> bool {
    v matches JsonValue::Object(es) && es@.len() == 1 && es@[0].0@ == "cursor"@ && is_json_str(es@[0].1, c)
}

/// `v` is `{"roots":{"listChanged":false},"sampling":{}}`.
pub open spec fn is_client_capabilities(v: JsonValue) -> bool {
    &&& v matches JsonValue::Object(es) && es@.len() == 2
    &&& v matches JsonValue::Object(es) && es@[0].0@ == "roots"@ && (es@[0].1 matches JsonValue::Object(rs)
        && rs@.len() == 1 && rs@[0].0@ == "listChanged"@ && rs@[0].1 == JsonValue::Bool(false))
    &&& v matches JsonValue::Object(es) && es@[1].0@ == "sampling"@ && is_empty_object(es@[1].1)
}

/// `v` is `{"name":"mcpdoctor","version": version}`.
pub open spec fn is_client_info(v: JsonValue, version: Seq<char>) -> bool {
    &&& v matches JsonValue::Object(es) && es@.len() == 2
    &&& v matches JsonValue::Object(es) && es@[0].0@ == "name"@ && is_json_str(es@[0].1, "mcpdoctor"@)
    &&& v matches JsonValue::Object(es) && es@[1].0@ == "version"@ && is_json_str(es@[1].1, version)
}

/// `v` is the params of `initialize`: protocol `2024-11-05`, the client's
/// capabilities, and the client's name and `version`.
pub open spec fn is_initialize_params(v: JsonValue, version: Seq<char>) -> bool {
    &&& v matches JsonValue::Object(es) && es@.len() == 3
    &&& v matches JsonValue::Object(es) && es@[0].0@ == "protocolVersion"@ && is_json_str(es@[0].1, "2024-11-05"@)
    &&& v matches JsonValue::Object(es) && es@[1].0@ == "capabilities"@ && is_client_capabilities(es@[1].1)
    &&& v matches JsonValue::Object(es) && es@[2].0@ == "clientInfo"@ && is_client_info(es@[2].1, version)
}

/// Whether `e` is what session state `s` waits for.
pub open spec fn awaits(s: Session, e: SessionEvent) -> bool {
    match s {
        Session::Start => e is Begin,
        Session::AwaitInitialize => e is Initialized,
        Session::Greeted { .. } => e is Notified,
        Session::Listing { id, .. } => e is Page && id < u64::MAX,
        Session::Closed => false,
    }
}

/// After `Begin`: send `initialize` with the client's `version`.
pub open spec fn after_begin(version: Seq<char>, r: (Session, SessionAction)) -> bool {
    &&& r.0 is AwaitInitialize
    &&& r.1 matches SessionAction::Request { id, method, params } && id == 1 && method@ == "initialize"@
        && is_initialize_params(params, version)
}

/// After the `initialize` result: keep it and send the notification.
pub open spec fn after_initialize(initialize: InitializeResult, r: (Session, SessionAction)) -> bool {
    &&& r.0 == Session::Greeted { initialize }
    &&& r.1 matches SessionAction::Notify { method, params } && method@ == "notifications/initialized"@
        && is_empty_object(params)
}

/// After the notification: ask for the first `tools/list` page, as
/// request number 2.
pub open spec fn after_greeting(initialize: InitializeResult, r: (Session, SessionAction)) -> bool {
    &&& r.0 matches Session::Listing { initialize: i, tools, id } && i == initialize && tools@.len() == 0 && id == 2
    &&& r.1 matches SessionAction::Request { id, method, params } && id == 2 && method@ == "tools/list"@
        && is_empty_object(params)
}

/// What follows a `tools/list` page in state `Listing { initialize, tools, id }`:
/// the next page is asked for as request number `id + 1`.
pub open spec fn after_page(
    initialize: InitializeResult,
    tools: Seq<ToolDef>,
    id: u64,
    page: ToolsListResult,
    raw: JsonValue,
    r: (Session, SessionAction),
) -> bool {
    let all = tools + page.tools@;
    if all.len() > MAX_INVENTORY_TOOLS {
        &&& r.0 is Closed
        &&& r.1 matches SessionAction::Fail(ClientError::TooManyTools)
    } else if page.next_cursor matches Some(c) && c@.len() > 0 {
        &&& r.0 matches Session::Listing { initialize: i, tools: ts, id: n } && i == initialize && ts@ == all
            && n == id + 1
        &&& r.1 matches SessionAction::Request { id: n, method, params } && n == id + 1 && method@ == "tools/list"@
            && is_cursor_params(params, page.next_cursor->0@)
    } else {
        &&& r.0 is Closed
        &&& r.1 matches SessionAction::Finish(inv) && inv.initialize == initialize && inv.tools@ == all
            && inv.raw_tools_list == raw
    }
}

impl Session {
    /// Whether `e` is what this state waits for.
    pub fn awaits_event(&self, e: &SessionEvent) -> (r: bool)
        ensures
            r == awaits(*self, *e),
    {
        match self {
            Session::Start => matches!(e, SessionEvent::Begin { .. }),
            Session::AwaitInitialize => matches!(e, SessionEvent::Initialized(_)),
            Session::Greeted { .. } => matches!(e, SessionEvent::Notified),
            Session::Listing { id, .. } => matches!(e, SessionEvent::Page { .. }) && *id < u64::MAX,
            Session::Closed => false,
        }
    }
}

fn json_string(s: &str) -> (r: JsonValue)
    ensures
        is_json_str(r, s@),
{
    JsonValue::String(s.to_owned())
}

fn empty_object() -> (r: JsonValue)
    ensures
        is_empty_object(r),
{
    JsonValue::Object(Vec::new())
}

/// The params of `initialize` for client `version`.
fn initialize_params(version: &str) -> (r: JsonValue)
    ensures
        is_initialize_params(r, version@),
{
    let roots = JsonValue::Object(vec![("listChanged".to_owned(), JsonValue::Bool(false))]);
    let caps = JsonValue::Object(vec![("roots".to_owned(), roots), ("sampling".to_owned(), empty_object())]);
    let info = JsonValue::Object(
        vec![("name".to_owned(), json_string("mcpdoctor")), ("version".to_owned(), json_string(version))],
    );
    JsonValue::Object(
        vec![
            ("protocolVersion".to_owned(), json_string("2024-11-05")),
            ("capabilities".to_owned(), caps),
            ("clientInfo".to_owned(), info),
        ],
    )
}

/// Takes what the last action brought back in state `s` and gives the next
/// state and action: `initialize` first, then the notification, then
/// `tools/list` pages, each next one asked for by its cursor, until a page
/// comes without a cursor (the inventory is complete) or more than
/// `MAX_INVENTORY_TOOLS` tools were gathered (the session fails).
pub fn session_step(s: Session, e: SessionEvent) -> (r: (Session, SessionAction))
    requires
        awaits(s, e),
    ensures
        s is Start ==> after_begin(e->client_version@, r),
        s is AwaitInitialize ==> after_initialize(e->Initialized_0, r),
        s is Greeted ==> after_greeting(s->Greeted_initialize, r),
        s is Listing ==> after_page(s->Listing_initialize, s->Listing_tools@, s->Listing_id, e->page, e->raw, r),
{
    match s {
        Session::Start => match e {
            SessionEvent::Begin { client_version } => {
                let params = initialize_params(client_version.as_str());
                (Session::AwaitInitialize, SessionAction::Request { id: 1, method: "initialize".to_owned(), params })
            },
            _ => vstd::pervasive::unreached(),
        },
        Session::AwaitInitialize => match e {
            SessionEvent::Initialized(initialize) => (
                Session::Greeted { initialize },
                SessionAction::Notify { method: "notifications/initialized".to_owned(), params: empty_object() },
            ),
            _ => vstd::pervasive::unreached(),
        },
        Session::Greeted { initialize } => (
            Session::Listing { initialize, tools: Vec::new(), id: 2 },
            SessionAction::Request { id: 2, method: "tools/list".to_owned(), params: empty_object() },
        ),
        Session::Listing { initialize, mut tools, id } => match e {
            SessionEvent::Page { page, raw } => {
                let ToolsListResult { tools: mut more, next_cursor } = page;
                tools.append(&mut more);
                let total = tools.len();
                match page_step(next_cursor, total) {
                    PageStep::TooMany => (Session::Closed, SessionAction::Fail(ClientError::TooManyTools)),
                    PageStep::Next(c) => {
                        let params = JsonValue::Object(vec![("cursor".to_owned(), JsonValue::String(c))]);
                        let next = id + 1;
                        (
                            Session::Listing { initialize, tools, id: next },
                            SessionAction::Request { id: next, method: "tools/list".to_owned(), params },
                        )
                    },
                    PageStep::Finished => (
                        Session::Closed,
                        SessionAction::Finish(Inventory { initialize, tools, raw_tools_list: raw }),
                    ),
                }
            },
            _ => vstd::pervasive::unreached(),
        },
        Session::Closed => vstd::pervasive::unreached(),
    }
}

} // verus!
