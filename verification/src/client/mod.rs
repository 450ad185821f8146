//! The MCP client side: what a server says about itself, and the wire
//! decisions of a stdio session.
mod session;
mod stdio;

pub use session::{
    after_begin, after_greeting, after_initialize, after_page, awaits, is_client_capabilities, is_client_info, is_cursor_params, is_empty_object,
    is_initialize_params, is_json_str, session_step, Session, SessionAction, SessionEvent,
};
pub use stdio::{
    classify_reply, content_length, encode_notification, encode_request, frame_message, header_line_kind,
    is_header_framed, ndjson_payload, page_step, ClientError, Framing, HeaderLine, PageStep, Reply,
    StdioTarget, MAX_BODY_BYTES, MAX_HEADER_LINES, MAX_INVENTORY_TOOLS, MAX_REPLY_MESSAGES,
};

use vstd::prelude::*;
use crate::json::JsonValue;
use crate::types::{ToolDef, ToolsListResult};

verus! {

/// The `serverInfo` of an `initialize` result.
#[derive(Debug, Clone)]
pub struct ServerInfo {
    pub name: String,
    pub version: String,
}

/// The result of the MCP `initialize` request.
#[derive(Debug)]
pub struct InitializeResult {
    pub protocol_version: String,
    pub capabilities: JsonValue,
    pub server_info: ServerInfo,
}

/// What a live server reported: its handshake and its whole tool list.
#[derive(Debug)]
pub struct Inventory {
    pub initialize: InitializeResult,
    pub tools: Vec<ToolDef>,
    /// The last `tools/list` result page as received.
    pub raw_tools_list: JsonValue,
}

impl Inventory {
    /// The tools as one `tools/list` result without a further page.
    pub fn tools_list_result(self) -> (r: ToolsListResult)
        ensures
            r.tools == self.tools,
            r.next_cursor is None,
    {
        ToolsListResult { tools: self.tools, next_cursor: None }
    }
}

} // verus!
