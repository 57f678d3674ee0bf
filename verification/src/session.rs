//! The MCP session state machine.
//!
//! `ProperMcpClient` tracks the connection state, the capabilities the
//! server advertised at initialize, and the advisory cache of the last tool
//! listing. It is driven by events: the host performs the child spawn, the
//! writes and the waits, and reports what happened. The protocol version
//! advertised is `2024-11-05`.

use vstd::prelude::*;
use crate::json::Json;
use crate::json::JsonV;
use crate::json::deep_clone_json;
use crate::rpc::obj_lookup;
use crate::rpc::opt_jsonv;

verus! {

/// Where the session stands.
#[derive(Debug, PartialEq)]
pub enum ClientState {
    Disconnected,
    Connecting,
    Connected,
    Error(String),
}

pub enum ClientStateV {
    Disconnected,
    Connecting,
    Connected,
    Error(Seq<char>),
}

impl View for ClientState {
    type V = ClientStateV;

    open spec fn view(&self) -> ClientStateV {
        match self {
            ClientState::Disconnected => ClientStateV::Disconnected,
            ClientState::Connecting => ClientStateV::Connecting,
            ClientState::Connected => ClientStateV::Connected,
            ClientState::Error(s) => ClientStateV::Error(s@),
        }
    }
}

impl Clone for ClientState {
    fn clone(&self) -> (r: Self)
        ensures
            r == *self,
    {
        match self {
            ClientState::Disconnected => ClientState::Disconnected,
            ClientState::Connecting => ClientState::Connecting,
            ClientState::Connected => ClientState::Connected,
            ClientState::Error(s) => ClientState::Error(s.clone()),
        }
    }
}

/// A session-level failure.
#[derive(Debug, PartialEq)]
pub enum McpClientError {
    Transport(crate::transport::TransportError),
    Protocol(String),
    NotConnected,
}

#[derive(Debug, Clone, Copy, PartialEq, Eq, Structural)]
pub struct ToolsCapability {
    pub list: bool,
}

#[derive(Debug, Clone, Copy, PartialEq, Eq, Structural)]
pub struct PromptsCapability {
    pub list: bool,
}

#[derive(Debug, Clone, Copy, PartialEq, Eq, Structural)]
pub struct ResourcesCapability {
    pub list: bool,
}

/// What the server advertised at initialize; an absent sub-capability means
/// the surface is unsupported.
#[derive(Debug, Clone, Copy, PartialEq)]
pub struct ServerCapabilities {
    pub tools: Option<ToolsCapability>,
    pub prompts: Option<PromptsCapability>,
    pub resources: Option<ResourcesCapability>,
}

pub struct CapsV {
    pub tools: Option<bool>,
    pub prompts: Option<bool>,
    pub resources: Option<bool>,
}

impl View for ServerCapabilities {
    type V = CapsV;

    open spec fn view(&self) -> CapsV {
        CapsV {
            tools: match self.tools {
                Some(t) => Some(t.list),
                None => None,
            },
            prompts: match self.prompts {
                Some(p) => Some(p.list),
                None => None,
            },
            resources: match self.resources {
                Some(r) => Some(r.list),
                None => None,
            },
        }
    }
}

#[derive(Debug, PartialEq)]
pub struct ServerInfo {
    pub name: String,
    pub version: String,
}

/// The payload of a successful `initialize` response.
#[derive(Debug, PartialEq)]
pub struct InitializeResponse {
    pub protocol_version: String,
    pub server_info: ServerInfo,
    pub capabilities: ServerCapabilities,
}

pub struct InitV {
    pub protocol_version: Seq<char>,
    pub server_name: Seq<char>,
    pub server_version: Seq<char>,
    pub capabilities: CapsV,
}

impl View for InitializeResponse {
    type V = InitV;

    open spec fn view(&self) -> InitV {
        InitV {
            protocol_version: self.protocol_version@,
            server_name: self.server_info.name@,
            server_version: self.server_info.version@,
            capabilities: self.capabilities@,
        }
    }
}

/// One tool the server offers.
#[derive(Debug, PartialEq)]
pub struct Tool {
    pub name: String,
    pub description: Option<String>,
    pub input_schema: Json,
}

pub struct ToolV {
    pub name: Seq<char>,
    pub description: Option<Seq<char>>,
    pub input_schema: JsonV,
}

impl View for Tool {
    type V = ToolV;

    open spec fn view(&self) -> ToolV {
        ToolV {
            name: self.name@,
            description: match &self.description {
                Some(d) => Some(d@),
                None => None,
            },
            input_schema: self.input_schema@,
        }
    }
}

impl Clone for Tool {
    fn clone(&self) -> (r: Self)
        ensures
            r@ == self@,
    {
        Tool {
            name: self.name.clone(),
            description: match &self.description {
                Some(d) => Some(d.clone()),
                None => None,
            },
            input_schema: deep_clone_json(&self.input_schema),
        }
    }
}

pub open spec fn view_tools(ts: Seq<Tool>) -> Seq<ToolV>
    decreases ts.len(),
{
    if ts.len() == 0 {
        Seq::empty()
    } else {
        seq![ts[0]@] + view_tools(ts.drop_first())
    }
}

/// Pointwise reading of [`view_tools`].
pub proof fn lemma_view_tools(ts: Seq<Tool>)
    ensures
        view_tools(ts).len() == ts.len(),
        forall|i: int| 0 <= i < ts.len() ==> #[trigger] view_tools(ts)[i] == ts[i]@,
    decreases ts.len(),
{
    if ts.len() > 0 {
        lemma_view_tools(ts.drop_first());
        assert forall|i: int| 0 <= i < ts.len() implies #[trigger] view_tools(ts)[i] == ts[i]@ by {
            if i > 0 {
                assert(ts.drop_first()[i - 1] == ts[i]);
                assert(view_tools(ts)[i] == view_tools(ts.drop_first())[i - 1]);
            }
        }
    }
}

/// One entry of a tool call's `content` array. Entry kinds beyond text and
/// image are preserved whole rather than rejected.
#[derive(Debug, PartialEq)]
pub enum ContentEntry {
    Text { text: String },
    Image { data: String, mime_type: String },
    Other { kind: String, value: Json },
}

pub enum ContentEntryV {
    Text { text: Seq<char> },
    Image { data: Seq<char>, mime_type: Seq<char> },
    Other { kind: Seq<char>, value: JsonV },
}

impl View for ContentEntry {
    type V = ContentEntryV;

    open spec fn view(&self) -> ContentEntryV {
        match self {
            ContentEntry::Text { text } => ContentEntryV::Text { text: text@ },
            ContentEntry::Image { data, mime_type } => ContentEntryV::Image {
                data: data@,
                mime_type: mime_type@,
            },
            ContentEntry::Other { kind, value } => ContentEntryV::Other {
                kind: kind@,
                value: value@,
            },
        }
    }
}

/// What a `tools/call` response carries.
#[derive(Debug, PartialEq)]
pub struct CallToolResult {
    pub content: Vec<ContentEntry>,
}

pub open spec fn view_entries(es: Seq<ContentEntry>) -> Seq<ContentEntryV>
    decreases es.len(),
{
    if es.len() == 0 {
        Seq::empty()
    } else {
        seq![es[0]@] + view_entries(es.drop_first())
    }
}

/// Pointwise reading of [`view_entries`].
pub proof fn lemma_view_entries(es: Seq<ContentEntry>)
    ensures
        view_entries(es).len() == es.len(),
        forall|i: int| 0 <= i < es.len() ==> #[trigger] view_entries(es)[i] == es[i]@,
    decreases es.len(),
{
    if es.len() > 0 {
        lemma_view_entries(es.drop_first());
        assert forall|i: int| 0 <= i < es.len() implies #[trigger] view_entries(es)[i]
            == es[i]@ by {
            if i > 0 {
                assert(es.drop_first()[i - 1] == es[i]);
                assert(view_entries(es)[i] == view_entries(es.drop_first())[i - 1]);
            }
        }
    }
}

pub open spec fn cap_flag(x: Option<JsonV>) -> Option<bool> {
    match x {
        None => None,
        Some(v) => Some(
            match v {
                JsonV::Obj(ms) => obj_lookup(ms, "list"@) == Some(JsonV::Bool(true)),
                _ => false,
            },
        ),
    }
}

/// The capabilities a `capabilities` object advertises: a surface is present
/// exactly when its key is, and its `list` flag is true exactly when the
/// surface's object says `"list": true`.
pub open spec fn caps_of_obj(ms: Seq<(Seq<char>, JsonV)>) -> CapsV {
    CapsV {
        tools: cap_flag(obj_lookup(ms, "tools"@)),
        prompts: cap_flag(obj_lookup(ms, "prompts"@)),
        resources: cap_flag(obj_lookup(ms, "resources"@)),
    }
}

/// A well-formed `initialize` result: `protocolVersion` a string,
/// `serverInfo` an object with string `name` and `version`, `capabilities`
/// an object.
pub open spec fn parse_init(v: JsonV) -> Option<InitV> {
    match v {
        JsonV::Obj(ms) => match (
            obj_lookup(ms, "protocolVersion"@),
            obj_lookup(ms, "serverInfo"@),
            obj_lookup(ms, "capabilities"@),
        ) {
            (Some(JsonV::Str(pv)), Some(JsonV::Obj(si)), Some(JsonV::Obj(cs))) => match (
                obj_lookup(si, "name"@),
                obj_lookup(si, "version"@),
            ) {
                (Some(JsonV::Str(n)), Some(JsonV::Str(ver))) => Some(
                    InitV {
                        protocol_version: pv,
                        server_name: n,
                        server_version: ver,
                        capabilities: caps_of_obj(cs),
                    },
                ),
                _ => None,
            },
            _ => None,
        },
        _ => None,
    }
}

/// A well-formed tool: `name` a string, `inputSchema` present; a
/// `description` that is absent or not a string is read as absent.
pub open spec fn parse_tool(v: JsonV) -> Option<ToolV> {
    match v {
        JsonV::Obj(ms) => match (obj_lookup(ms, "name"@), obj_lookup(ms, "inputSchema"@)) {
            (Some(JsonV::Str(nm)), Some(schema)) => Some(
                ToolV {
                    name: nm,
                    description: match obj_lookup(ms, "description"@) {
                        Some(JsonV::Str(d)) => Some(d),
                        _ => None,
                    },
                    input_schema: schema,
                },
            ),
            _ => None,
        },
        _ => None,
    }
}

pub open spec fn parse_tool_seq(es: Seq<JsonV>) -> Option<Seq<ToolV>>
    decreases es.len(),
{
    if es.len() == 0 {
        Some(Seq::empty())
    } else {
        match (parse_tool(es[0]), parse_tool_seq(es.drop_first())) {
            (Some(t), Some(rest)) => Some(seq![t] + rest),
            _ => None,
        }
    }
}

/// A well-formed `tools/list` result: a `tools` member holding an array of
/// well-formed tools.
pub open spec fn parse_tools(v: JsonV) -> Option<Seq<ToolV>> {
    match v {
        JsonV::Obj(ms) => match obj_lookup(ms, "tools"@) {
            Some(JsonV::Arr(es)) => parse_tool_seq(es),
            _ => None,
        },
        _ => None,
    }
}

/// One content entry, discriminated by its `type` string: `text` carries a
/// string `text`, `image` carries string `data` and `mimeType`, and any
/// other kind is kept whole.
pub open spec fn parse_entry(v: JsonV) -> Option<ContentEntryV> {
    match v {
        JsonV::Obj(ms) => match obj_lookup(ms, "type"@) {
            Some(JsonV::Str(kind)) => if kind == "text"@ {
                match obj_lookup(ms, "text"@) {
                    Some(JsonV::Str(text)) => Some(ContentEntryV::Text { text }),
                    _ => None,
                }
            } else if kind == "image"@ {
                match (obj_lookup(ms, "data"@), obj_lookup(ms, "mimeType"@)) {
                    (Some(JsonV::Str(data)), Some(JsonV::Str(mt))) => Some(
                        ContentEntryV::Image { data, mime_type: mt },
                    ),
                    _ => None,
                }
            } else {
                Some(ContentEntryV::Other { kind, value: v })
            },
            _ => None,
        },
        _ => None,
    }
}

pub open spec fn parse_entry_seq(es: Seq<JsonV>) -> Option<Seq<ContentEntryV>>
    decreases es.len(),
{
    if es.len() == 0 {
        Some(Seq::empty())
    } else {
        match (parse_entry(es[0]), parse_entry_seq(es.drop_first())) {
            (Some(e), Some(rest)) => Some(seq![e] + rest),
            _ => None,
        }
    }
}

/// A well-formed `tools/call` result: a `content` member holding an array
/// of well-formed entries.
pub open spec fn parse_call_result(v: JsonV) -> Option<Seq<ContentEntryV>> {
    match v {
        JsonV::Obj(ms) => match obj_lookup(ms, "content"@) {
            Some(JsonV::Arr(es)) => parse_entry_seq(es),
            _ => None,
        },
        _ => None,
    }
}

pub open spec fn opt_ref_jsonv(x: Option<&Json>) -> Option<JsonV> {
    match x {
        Some(j) => Some(j@),
        None => None,
    }
}

fn cap_flag_x(x: Option<&Json>) -> (r: Option<bool>)
    ensures
        r == cap_flag(opt_ref_jsonv(x)),
{
    match x {
        None => None,
        Some(v) => Some(
            match v {
                Json::Obj(ms) => match crate::rpc::obj_get(ms, "list") {
                    Some(lv) => match lv {
                        Json::Bool(b) => *b,
                        _ => false,
                    },
                    None => false,
                },
                _ => false,
            },
        ),
    }
}

/// Reads an `initialize` result; `None` exactly on a payload that
/// [`parse_init`] rejects.
pub fn parse_initialize(result: &Json) -> (r: Option<InitializeResponse>)
    ensures
        match (r, parse_init(result@)) {
            (Some(x), Some(xv)) => x@ == xv,
            (None, None) => true,
            _ => false,
        },
{
    let ms = match result {
        Json::Obj(ms) => ms,
        _ => {
            return None;
        },
    };
    let pv = match crate::rpc::obj_get(ms, "protocolVersion") {
        Some(Json::Str(pv)) => pv.clone(),
        _ => {
            return None;
        },
    };
    let si = match crate::rpc::obj_get(ms, "serverInfo") {
        Some(Json::Obj(si)) => si,
        _ => {
            return None;
        },
    };
    let cs = match crate::rpc::obj_get(ms, "capabilities") {
        Some(Json::Obj(cs)) => cs,
        _ => {
            return None;
        },
    };
    let name = match crate::rpc::obj_get(si, "name") {
        Some(Json::Str(n)) => n.clone(),
        _ => {
            return None;
        },
    };
    let version = match crate::rpc::obj_get(si, "version") {
        Some(Json::Str(v)) => v.clone(),
        _ => {
            return None;
        },
    };
    let capabilities = ServerCapabilities {
        tools: match cap_flag_x(crate::rpc::obj_get(cs, "tools")) {
            Some(b) => Some(ToolsCapability { list: b }),
            None => None,
        },
        prompts: match cap_flag_x(crate::rpc::obj_get(cs, "prompts")) {
            Some(b) => Some(PromptsCapability { list: b }),
            None => None,
        },
        resources: match cap_flag_x(crate::rpc::obj_get(cs, "resources")) {
            Some(b) => Some(ResourcesCapability { list: b }),
            None => None,
        },
    };
    Some(
        InitializeResponse {
            protocol_version: pv,
            server_info: ServerInfo { name, version },
            capabilities,
        },
    )
}

fn parse_tool_x(v: &Json) -> (r: Option<Tool>)
    ensures
        match (r, parse_tool(v@)) {
            (Some(t), Some(tv)) => t@ == tv,
            (None, None) => true,
            _ => false,
        },
{
    let ms = match v {
        Json::Obj(ms) => ms,
        _ => {
            return None;
        },
    };
    let name = match crate::rpc::obj_get(ms, "name") {
        Some(Json::Str(n)) => n.clone(),
        _ => {
            return None;
        },
    };
    let input_schema = match crate::rpc::obj_get(ms, "inputSchema") {
        Some(s) => deep_clone_json(s),
        None => {
            return None;
        },
    };
    let description = match crate::rpc::obj_get(ms, "description") {
        Some(Json::Str(d)) => Some(d.clone()),
        _ => None,
    };
    Some(Tool { name, description, input_schema })
}

/// Reads a `tools/list` result; `None` exactly on a payload that
/// [`parse_tools`] rejects.
pub fn parse_tools_list(result: &Json) -> (r: Option<Vec<Tool>>)
    ensures
        match (r, parse_tools(result@)) {
            (Some(ts), Some(tv)) => view_tools(ts@) == tv,
            (None, None) => true,
            _ => false,
        },
{
    let ms = match result {
        Json::Obj(ms) => ms,
        _ => {
            return None;
        },
    };
    let es = match crate::rpc::obj_get(ms, "tools") {
        Some(Json::Arr(es)) => es,
        _ => {
            return None;
        },
    };
    let ghost esv = crate::json::view_json_seq(es@);
    proof {
        assert(parse_tools(result@) == parse_tool_seq(esv));
    }
    proof {
        crate::json::lemma_view_json_seq(es@);
        assert(esv.skip(0) =~= esv);
    }
    let n = es.len();
    let mut out: Vec<Tool> = Vec::new();
    let mut i: usize = 0;
    while i < n
        invariant
            i <= n,
            n == es@.len(),
            esv.len() == n,
            esv == crate::json::view_json_seq(es@),
            forall|q: int| 0 <= q < n ==> #[trigger] crate::json::view_json_seq(es@)[q]
                == crate::json::view_json(es@[q]),
            out@.len() == i,
            parse_tools(result@) == parse_tool_seq(esv),
            match parse_tool_seq(esv.skip(i as int)) {
                Some(rest) => parse_tool_seq(esv) == Some(view_tools(out@) + rest),
                None => parse_tool_seq(esv) is None,
            },
        decreases n - i,
    {
        let ghost tail0 = esv.skip(i as int);
        proof {
            assert(tail0[0] == esv[i as int]);
            assert(tail0.drop_first() =~= esv.skip(i + 1));
        }
        match parse_tool_x(&es[i]) {
            Some(t) => {
                let ghost out0 = out@;
                let ghost tv = t@;
                out.push(t);
                proof {
                    lemma_view_tools(out@);
                    lemma_view_tools(out0);
                    assert forall|q: int| 0 <= q < out@.len() implies view_tools(out@)[q] == (
                    view_tools(out0) + seq![tv])[q] by {
                        if q < out0.len() {
                            assert(out@[q] == out0[q]);
                            assert(view_tools(out0)[q] == out0[q]@);
                        } else {
                            assert(out@[q] == out@.last());
                        }
                    }
                    assert(view_tools(out@) =~= view_tools(out0) + seq![tv]);
                    if let Some(rest) = parse_tool_seq(esv.skip(i + 1)) {
                        assert(parse_tool_seq(tail0) == Some(seq![tv] + rest));
                        assert(view_tools(out0) + (seq![tv] + rest) =~= (view_tools(out0)
                            + seq![tv]) + rest);
                    }
                }
                i = i + 1;
            },
            None => {
                proof {
                    assert(parse_tool_seq(tail0) is None);
                }
                return None;
            },
        }
    }
    proof {
        assert(esv.skip(n as int) =~= Seq::<JsonV>::empty());
        assert(view_tools(out@) + Seq::<ToolV>::empty() =~= view_tools(out@));
    }
    Some(out)
}

fn parse_entry_x(v: &Json) -> (r: Option<ContentEntry>)
    ensures
        match (r, parse_entry(v@)) {
            (Some(e), Some(ev)) => e@ == ev,
            (None, None) => true,
            _ => false,
        },
{
    let ms = match v {
        Json::Obj(ms) => ms,
        _ => {
            return None;
        },
    };
    let kind = match crate::rpc::obj_get(ms, "type") {
        Some(Json::Str(k)) => k,
        _ => {
            return None;
        },
    };
    if crate::json::str_eq(kind.as_str(), "text") {
        match crate::rpc::obj_get(ms, "text") {
            Some(Json::Str(text)) => Some(ContentEntry::Text { text: text.clone() }),
            _ => None,
        }
    } else if crate::json::str_eq(kind.as_str(), "image") {
        let data = match crate::rpc::obj_get(ms, "data") {
            Some(Json::Str(d)) => d.clone(),
            _ => {
                return None;
            },
        };
        match crate::rpc::obj_get(ms, "mimeType") {
            Some(Json::Str(mt)) => Some(ContentEntry::Image { data, mime_type: mt.clone() }),
            _ => None,
        }
    } else {
        Some(ContentEntry::Other { kind: kind.clone(), value: deep_clone_json(v) })
    }
}

/// Reads a `tools/call` result; `None` exactly on a payload that
/// [`parse_call_result`] rejects. The content is otherwise opaque to the
/// client and handed over verbatim.
pub fn parse_call_tool_result(result: &Json) -> (r: Option<CallToolResult>)
    ensures
        match (r, parse_call_result(result@)) {
            (Some(c), Some(cv)) => view_entries(c.content@) == cv,
            (None, None) => true,
            _ => false,
        },
{
    let ms = match result {
        Json::Obj(ms) => ms,
        _ => {
            return None;
        },
    };
    let es = match crate::rpc::obj_get(ms, "content") {
        Some(Json::Arr(es)) => es,
        _ => {
            return None;
        },
    };
    let ghost esv = crate::json::view_json_seq(es@);
    proof {
        assert(parse_call_result(result@) == parse_entry_seq(esv));
    }
    proof {
        crate::json::lemma_view_json_seq(es@);
        assert(esv.skip(0) =~= esv);
    }
    let n = es.len();
    let mut out: Vec<ContentEntry> = Vec::new();
    let mut i: usize = 0;
    while i < n
        invariant
            i <= n,
            n == es@.len(),
            esv.len() == n,
            esv == crate::json::view_json_seq(es@),
            forall|q: int| 0 <= q < n ==> #[trigger] crate::json::view_json_seq(es@)[q]
                == crate::json::view_json(es@[q]),
            out@.len() == i,
            parse_call_result(result@) == parse_entry_seq(esv),
            match parse_entry_seq(esv.skip(i as int)) {
                Some(rest) => parse_entry_seq(esv) == Some(view_entries(out@) + rest),
                None => parse_entry_seq(esv) is None,
            },
        decreases n - i,
    {
        let ghost tail0 = esv.skip(i as int);
        proof {
            assert(tail0[0] == esv[i as int]);
            assert(tail0.drop_first() =~= esv.skip(i + 1));
        }
        match parse_entry_x(&es[i]) {
            Some(e) => {
                let ghost out0 = out@;
                let ghost ev = e@;
                out.push(e);
                proof {
                    lemma_view_entries(out@);
                    lemma_view_entries(out0);
                    assert forall|q: int| 0 <= q < out@.len() implies view_entries(out@)[q] == (
                    view_entries(out0) + seq![ev])[q] by {
                        if q < out0.len() {
                            assert(out@[q] == out0[q]);
                            assert(view_entries(out0)[q] == out0[q]@);
                        } else {
                            assert(out@[q] == out@.last());
                        }
                    }
                    assert(view_entries(out@) =~= view_entries(out0) + seq![ev]);
                    if let Some(rest) = parse_entry_seq(esv.skip(i + 1)) {
                        assert(parse_entry_seq(tail0) == Some(seq![ev] + rest));
                        assert(view_entries(out0) + (seq![ev] + rest) =~= (view_entries(out0)
                            + seq![ev]) + rest);
                    }
                }
                i = i + 1;
            },
            None => {
                proof {
                    assert(parse_entry_seq(tail0) is None);
                }
                return None;
            },
        }
    }
    proof {
        assert(esv.skip(n as int) =~= Seq::<JsonV>::empty());
        assert(view_entries(out@) + Seq::<ContentEntryV>::empty() =~= view_entries(out@));
    }
    Some(CallToolResult { content: out })
}

/// The object sent as `initialize` params: the protocol version this client
/// speaks, the client's capability declarations, and its identity.
pub open spec fn capability_decl() -> JsonV {
    JsonV::Obj(seq![("list"@, JsonV::Bool(true))])
}

pub open spec fn initialize_params_v() -> JsonV {
    JsonV::Obj(
        seq![
            ("protocolVersion"@, JsonV::Str("2024-11-05"@)),
            (
                "capabilities"@,
                JsonV::Obj(
                    seq![
                        ("tools"@, capability_decl()),
                        ("prompts"@, capability_decl()),
                        ("resources"@, capability_decl()),
                    ],
                ),
            ),
            (
                "clientInfo"@,
                JsonV::Obj(
                    seq![
                        ("name"@, JsonV::Str("MCP Desktop Client"@)),
                        ("version"@, JsonV::Str("0.1.0"@)),
                    ],
                ),
            ),
        ],
    )
}

fn cap_decl_x() -> (j: Json)
    ensures
        j@ == capability_decl(),
{
    let mut ms: Vec<(String, Json)> = Vec::new();
    ms.push((String::from_str("list"), Json::Bool(true)));
    let j = Json::Obj(ms);
    proof {
        crate::json::lemma_view_json_pairs(ms@);
        assert(crate::json::view_json_pairs(ms@) =~= seq![("list"@, JsonV::Bool(true))]);
    }
    j
}

/// Builds the `initialize` request params.
pub fn initialize_params() -> (j: Json)
    ensures
        j@ == initialize_params_v(),
{
    let mut caps: Vec<(String, Json)> = Vec::new();
    caps.push((String::from_str("tools"), cap_decl_x()));
    caps.push((String::from_str("prompts"), cap_decl_x()));
    caps.push((String::from_str("resources"), cap_decl_x()));
    proof {
        crate::json::lemma_view_json_pairs(caps@);
        assert(crate::json::view_json_pairs(caps@) =~= seq![
            ("tools"@, capability_decl()),
            ("prompts"@, capability_decl()),
            ("resources"@, capability_decl()),
        ]);
    }
    let mut info: Vec<(String, Json)> = Vec::new();
    info.push((String::from_str("name"), Json::Str(String::from_str("MCP Desktop Client"))));
    info.push((String::from_str("version"), Json::Str(String::from_str("0.1.0"))));
    proof {
        crate::json::lemma_view_json_pairs(info@);
        assert(crate::json::view_json_pairs(info@) =~= seq![
            ("name"@, JsonV::Str("MCP Desktop Client"@)),
            ("version"@, JsonV::Str("0.1.0"@)),
        ]);
    }
    let mut ms: Vec<(String, Json)> = Vec::new();
    ms.push((String::from_str("protocolVersion"), Json::Str(String::from_str("2024-11-05"))));
    ms.push((String::from_str("capabilities"), Json::Obj(caps)));
    ms.push((String::from_str("clientInfo"), Json::Obj(info)));
    let j = Json::Obj(ms);
    proof {
        crate::json::lemma_view_json_pairs(ms@);
        assert(crate::json::view_json_pairs(ms@) =~= (match initialize_params_v() {
            JsonV::Obj(expected) => expected,
            _ => Seq::empty(),
        }));
    }
    j
}

/// The params of a `tools/call` request: the tool's name, and the arguments
/// only when there are any.
pub open spec fn call_params_v(name: Seq<char>, arguments: Option<JsonV>) -> JsonV {
    JsonV::Obj(
        seq![("name"@, JsonV::Str(name))] + match arguments {
            Some(a) => seq![("arguments"@, a)],
            None => Seq::empty(),
        },
    )
}

/// Builds the `tools/call` request params.
pub fn call_tool_params(name: String, arguments: Option<Json>) -> (j: Json)
    ensures
        j@ == call_params_v(name@, opt_jsonv(arguments)),
{
    let ghost namev = name@;
    let ghost argsv = opt_jsonv(arguments);
    let mut ms: Vec<(String, Json)> = Vec::new();
    ms.push((String::from_str("name"), Json::Str(name)));
    match arguments {
        Some(a) => {
            ms.push((String::from_str("arguments"), a));
        },
        None => {},
    }
    let j = Json::Obj(ms);
    proof {
        crate::json::lemma_view_json_pairs(ms@);
        assert(crate::json::view_json_pairs(ms@) =~= (match call_params_v(namev, argsv) {
            JsonV::Obj(expected) => expected,
            _ => Seq::empty(),
        }));
    }
    j
}

/// The session after a disconnect, whatever came before: state
/// `Disconnected`, no capabilities, no cached tools.
pub open spec fn disconnected_session() -> SessionV {
    SessionV { state: ClientStateV::Disconnected, capabilities: None, tools: Seq::empty() }
}

pub open spec fn disconnect_spec(s: SessionV) -> SessionV {
    disconnected_session()
}

/// Disconnecting is idempotent: a second disconnect lands on exactly the
/// session the first one left.
pub proof fn lemma_disconnect_idempotent(s: SessionV)
    ensures
        disconnect_spec(disconnect_spec(s)) == disconnect_spec(s),
{
}

pub struct SessionV {
    pub state: ClientStateV,
    pub capabilities: Option<CapsV>,
    pub tools: Seq<ToolV>,
}

/// What `list_tools` is to do.
#[derive(Debug, PartialEq)]
pub enum ListToolsAction {
    /// No connected session: fail with `NotConnected`.
    Refuse,
    /// The server advertises no `tools` capability: return an empty list,
    /// putting nothing on the wire.
    Empty,
    /// Issue a `tools/list` request.
    Request,
}

/// The MCP session state machine. The host drives it with events — what was
/// spawned, what the server answered, what failed — and asks it what each
/// operation may do.
pub struct ProperMcpClient {
    pub state: ClientState,
    pub capabilities: Option<ServerCapabilities>,
    pub tools: Vec<Tool>,
}

impl View for ProperMcpClient {
    type V = SessionV;

    open spec fn view(&self) -> SessionV {
        SessionV {
            state: self.state@,
            capabilities: match self.capabilities {
                Some(c) => Some(c@),
                None => None,
            },
            tools: view_tools(self.tools@),
        }
    }
}

impl ProperMcpClient {
    /// A connected session knows the server's capabilities.
    pub open spec fn wf(&self) -> bool {
        self.state@ is Connected ==> self.capabilities is Some
    }

    pub fn new() -> (c: Self)
        ensures
            c.wf(),
            c@ == disconnected_session(),
    {
        let c = ProperMcpClient { state: ClientState::Disconnected, capabilities: None, tools: Vec::new() };
        proof {
            assert(view_tools(c.tools@) =~= Seq::<ToolV>::empty());
        }
        c
    }

    /// A connect began: the transport is being spawned.
    pub fn connect_started(&mut self)
        requires
            old(self).wf(),
        ensures
            final(self).wf(),
            final(self)@.state is Connecting,
            final(self)@.capabilities == old(self)@.capabilities,
            final(self)@.tools == old(self)@.tools,
    {
        self.state = ClientState::Connecting;
    }

    /// A connect failed: keep the reason for later inspection.
    pub fn connect_failed(&mut self, reason: String)
        requires
            old(self).wf(),
        ensures
            final(self).wf(),
            final(self)@.state == ClientStateV::Error(reason@),
            final(self)@.capabilities == old(self)@.capabilities,
            final(self)@.tools == old(self)@.tools,
    {
        self.state = ClientState::Error(reason);
    }

    /// The `initialize` response arrived: record the advertised capabilities
    /// verbatim. Fails exactly on a payload [`parse_init`] rejects, leaving
    /// the session as it was; the caller then reports the connect as failed.
    pub fn apply_initialize_result(&mut self, result: &Json) -> (r: Result<
        InitializeResponse,
        McpClientError,
    >)
        requires
            old(self).wf(),
        ensures
            final(self).wf(),
            match r {
                Ok(resp) => parse_init(result@) == Some(resp@) && final(self)@.capabilities
                    == Some(resp@.capabilities) && final(self)@.state == old(self)@.state
                    && final(self)@.tools == old(self)@.tools,
                Err(e) => parse_init(result@) is None && e is Protocol
                    && *final(self) == *old(self),
            },
    {
        match parse_initialize(result) {
            Some(resp) => {
                self.capabilities = Some(resp.capabilities);
                Ok(resp)
            },
            None => Err(
                McpClientError::Protocol(String::from_str("invalid initialize response")),
            ),
        }
    }

    /// The `initialized` notification that follows a successful initialize:
    /// it can only be had from a session whose capabilities are recorded, so
    /// the session's own events force the wire order — initialize response
    /// first, then this line, then the connected state.
    pub fn initialized_notification(&self) -> (line: String)
        requires
            self.wf(),
            self.capabilities is Some,
        ensures
            line@ == crate::json::ser(
                crate::rpc::msg_jsonv(
                    crate::rpc::MessageV::Notification { method: "initialized"@, params: None },
                ),
            ),
    {
        crate::transport::notification_line(String::from_str("initialized"), None)
    }

    /// The `initialized` notification went out: the session is connected.
    /// Comes only after a successful initialize, which recorded the
    /// capabilities.
    pub fn initialized_sent(&mut self)
        requires
            old(self).wf(),
            old(self).capabilities is Some,
        ensures
            final(self).wf(),
            final(self)@.state is Connected,
            final(self)@.capabilities == old(self)@.capabilities,
            final(self)@.tools == old(self)@.tools,
    {
        self.state = ClientState::Connected;
    }

    /// Capability gate for `list_tools`: refused off a connected session;
    /// an empty list, with nothing on the wire, when the server advertises
    /// no `tools` capability; a `tools/list` request otherwise.
    pub fn list_tools_action(&self) -> (r: ListToolsAction)
        requires
            self.wf(),
        ensures
            match r {
                ListToolsAction::Refuse => !(self@.state is Connected),
                ListToolsAction::Empty => self@.state is Connected && (match self@.capabilities {
                    Some(c) => c.tools is None,
                    None => false,
                }),
                ListToolsAction::Request => self@.state is Connected && (match self@.capabilities {
                    Some(c) => c.tools is Some,
                    None => false,
                }),
            },
    {
        match self.state {
            ClientState::Connected => match &self.capabilities {
                Some(c) => match c.tools {
                    Some(_) => ListToolsAction::Request,
                    None => ListToolsAction::Empty,
                },
                None => {
                    proof {
                        assert(false);
                    }
                    ListToolsAction::Refuse
                },
            },
            _ => ListToolsAction::Refuse,
        }
    }

    /// Gate for `call_tool` and `send_request`: the session must be
    /// connected; there is no client-side capability gate for tool calls.
    pub fn require_connected(&self) -> (r: Result<(), McpClientError>)
        ensures
            match r {
                Ok(()) => self@.state is Connected,
                Err(e) => !(self@.state is Connected) && e == McpClientError::NotConnected,
            },
    {
        match self.state {
            ClientState::Connected => Ok(()),
            _ => Err(McpClientError::NotConnected),
        }
    }

    /// The `tools/list` response arrived: refresh the advisory cache and
    /// hand the listing back. Fails exactly on a payload [`parse_tools`]
    /// rejects, leaving the cache as it was.
    pub fn apply_tools_result(&mut self, result: &Json) -> (r: Result<Vec<Tool>, McpClientError>)
        requires
            old(self).wf(),
        ensures
            final(self).wf(),
            match r {
                Ok(ts) => parse_tools(result@) == Some(view_tools(ts@)) && final(self)@.tools
                    == view_tools(ts@) && final(self)@.state == old(self)@.state
                    && final(self)@.capabilities == old(self)@.capabilities,
                Err(e) => parse_tools(result@) is None && e is Protocol
                    && *final(self) == *old(self),
            },
    {
        match parse_tools_list(result) {
            Some(ts) => {
                let copy = clone_tools(&ts);
                self.tools = copy;
                Ok(ts)
            },
            None => Err(McpClientError::Protocol(String::from_str("invalid tools/list response"))),
        }
    }

    pub fn get_state(&self) -> (r: ClientState)
        ensures
            r@ == self@.state,
    {
        self.state.clone()
    }

    /// The cached snapshot of the last tool listing; advisory only.
    pub fn get_tools(&self) -> (r: Vec<Tool>)
        ensures
            view_tools(r@) == self@.tools,
    {
        clone_tools(&self.tools)
    }

    /// Tears the session down: state `Disconnected`, capabilities and the
    /// tool cache cleared. Idempotent, and it always succeeds; the host
    /// closes the transport around it, best-effort.
    pub fn disconnect(&mut self) -> (r: Result<(), McpClientError>)
        requires
            old(self).wf(),
        ensures
            final(self).wf(),
            final(self)@ == disconnect_spec(old(self)@),
            r is Ok,
    {
        self.state = ClientState::Disconnected;
        self.capabilities = None;
        self.tools = Vec::new();
        proof {
            assert(view_tools(self.tools@) =~= Seq::<ToolV>::empty());
        }
        Ok(())
    }
}

fn clone_tools(ts: &Vec<Tool>) -> (r: Vec<Tool>)
    ensures
        view_tools(r@) == view_tools(ts@),
{
    let n = ts.len();
    let mut r: Vec<Tool> = Vec::new();
    let mut i: usize = 0;
    while i < n
        invariant
            i <= n,
            n == ts@.len(),
            r@.len() == i,
            forall|q: int| 0 <= q < i ==> #[trigger] r@[q]@ == ts@[q]@,
        decreases n - i,
    {
        r.push(ts[i].clone());
        i = i + 1;
    }
    proof {
        lemma_view_tools(r@);
        lemma_view_tools(ts@);
        assert(view_tools(r@) =~= view_tools(ts@));
    }
    r
}

} // verus!
