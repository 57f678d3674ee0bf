//! What the embedding host exchanges with its UI: plain request and status
//! records, and the mapping from session values onto them.

use vstd::prelude::*;
use crate::json::Json;
use crate::session::CallToolResult;
use crate::session::ClientState;
use crate::session::ContentEntry;
use crate::session::ContentEntryV;
use crate::session::view_entries;
use crate::session::lemma_view_entries;

verus! {

/// The descriptor a server is spawned from: command, arguments, optional
/// working directory, optional environment overrides merged over the
/// inherited environment. Supplied at connect, consumed once.
#[derive(Debug, PartialEq)]
pub struct ServerConfig {
    pub command: String,
    pub args: Vec<String>,
    pub cwd: Option<String>,
    pub env: Option<Vec<(String, String)>>,
}

/// A host's request to start a server.
#[derive(Debug, PartialEq)]
pub struct StartServerRequest {
    pub command: String,
    pub args: Vec<String>,
    pub cwd: Option<String>,
    pub env: Option<Vec<(String, String)>>,
}

impl StartServerRequest {
    /// The spawn descriptor this request asks for, field for field.
    pub fn into_config(self) -> (c: ServerConfig)
        ensures
            c.command == self.command,
            c.args == self.args,
            c.cwd == self.cwd,
            c.env == self.env,
    {
        ServerConfig { command: self.command, args: self.args, cwd: self.cwd, env: self.env }
    }
}

/// A host's request to call a tool.
#[derive(Debug, PartialEq)]
pub struct CallToolRequest {
    pub tool_name: String,
    pub arguments: Option<Json>,
}

/// The connection status as shown to a user.
#[derive(Debug, PartialEq)]
pub struct ConnectionStatusResponse {
    pub status: String,
    pub message: Option<String>,
}

/// Renders a session state for the host: a short status word, and the
/// reason only in the error state.
pub fn connection_status_response(state: &ClientState) -> (r: ConnectionStatusResponse)
    ensures
        match state {
            ClientState::Disconnected => r.status@ == "disconnected"@ && r.message is None,
            ClientState::Connecting => r.status@ == "connecting"@ && r.message is None,
            ClientState::Connected => r.status@ == "connected"@ && r.message is None,
            ClientState::Error(m) => r.status@ == "error"@ && (match r.message {
                Some(s) => s@ == m@,
                None => false,
            }),
        },
{
    match state {
        ClientState::Disconnected => ConnectionStatusResponse {
            status: String::from_str("disconnected"),
            message: None,
        },
        ClientState::Connecting => ConnectionStatusResponse {
            status: String::from_str("connecting"),
            message: None,
        },
        ClientState::Connected => ConnectionStatusResponse {
            status: String::from_str("connected"),
            message: None,
        },
        ClientState::Error(m) => ConnectionStatusResponse {
            status: String::from_str("error"),
            message: Some(m.clone()),
        },
    }
}

/// One content entry as shown to a user: its kind, and its text — for an
/// image, the base64 data.
#[derive(Debug, PartialEq)]
pub struct ToolContent {
    pub content_type: String,
    pub text: Option<String>,
}

/// A tool call's outcome as shown to a user.
#[derive(Debug, PartialEq)]
pub struct CallToolResponse {
    pub content: Vec<ToolContent>,
    pub is_error: Option<bool>,
}

/// How one wire content entry is shown: a text entry keeps its text under
/// kind `text`; an image keeps its base64 data under kind `image`; any
/// other kind keeps its kind string with no text.
pub open spec fn host_content_of(e: ContentEntryV) -> (Seq<char>, Option<Seq<char>>) {
    match e {
        ContentEntryV::Text { text } => ("text"@, Some(text)),
        ContentEntryV::Image { data, mime_type } => ("image"@, Some(data)),
        ContentEntryV::Other { kind, value } => (kind, None),
    }
}

/// Maps a tool call's outcome onto the host's shape, entry by entry. The
/// wire protocol has no error flag, so none is reported.
pub fn to_host_response(result: CallToolResult) -> (r: CallToolResponse)
    ensures
        r.is_error is None,
        r.content@.len() == view_entries(result.content@).len(),
        forall|i: int|
            0 <= i < r.content@.len() ==> ((#[trigger] r.content@[i]).content_type@,
            match r.content@[i].text {
                Some(t) => Some(t@),
                None => None,
            }) == host_content_of(view_entries(result.content@)[i]),
{
    proof {
        lemma_view_entries(result.content@);
    }
    let ghost src = result.content@;
    let mut out: Vec<ToolContent> = Vec::new();
    let n = result.content.len();
    let mut items = result.content;
    let mut i: usize = 0;
    while i < n
        invariant
            i <= n,
            n == src.len(),
            items@ == src,
            view_entries(src).len() == src.len(),
            forall|q: int| 0 <= q < src.len() ==> #[trigger] view_entries(src)[q] == src[q]@,
            out@.len() == i,
            forall|q: int|
                0 <= q < i ==> ((#[trigger] out@[q]).content_type@,
                match out@[q].text {
                    Some(t) => Some(t@),
                    None => None,
                }) == host_content_of(view_entries(src)[q]),
        decreases n - i,
    {
        let tc = match &items[i] {
            ContentEntry::Text { text } => ToolContent {
                content_type: String::from_str("text"),
                text: Some(text.clone()),
            },
            ContentEntry::Image { data, mime_type } => ToolContent {
                content_type: String::from_str("image"),
                text: Some(data.clone()),
            },
            ContentEntry::Other { kind, value } => ToolContent {
                content_type: kind.clone(),
                text: None,
            },
        };
        out.push(tc);
        i = i + 1;
    }
    CallToolResponse { content: out, is_error: None }
}

} // verus!
