//! Typed JSON-RPC 2.0 messages and their wire form.
//!
//! A message is one JSON object per line. The discriminator is structural:
//! a member `id` separates requests and responses from notifications, and a
//! member `method` separates requests from responses. A response carries
//! exactly one of `result` and `error`.

use vstd::prelude::*;
use crate::json::Json;
use crate::json::JsonV;
use crate::json::view_json;
use crate::json::view_json_pairs;
use crate::json::lemma_view_json_pairs;
use crate::json::p_text;
use crate::json::ser;
use crate::json::skip_ws;
use crate::json::to_chars;
use crate::json::parse_chars;
use crate::json::chars_to_string;
use crate::json::string_to_chars;

verus! {

/// A correlation id: JSON-RPC allows strings and integers. This client
/// issues string ids; inbound ids of either kind are understood.
#[derive(Debug, PartialEq)]
pub enum RpcId {
    S(String),
    N(i64),
}

pub enum RpcIdV {
    S(Seq<char>),
    N(int),
}

impl View for RpcId {
    type V = RpcIdV;

    open spec fn view(&self) -> RpcIdV {
        match self {
            RpcId::S(s) => RpcIdV::S(s@),
            RpcId::N(n) => RpcIdV::N(*n as int),
        }
    }
}

/// A well-formed JSON-RPC error object, surfaced to the caller verbatim.
#[derive(Debug, PartialEq)]
pub struct RpcError {
    pub code: i64,
    pub message: String,
    pub data: Option<Json>,
}

pub struct RpcErrorV {
    pub code: int,
    pub message: Seq<char>,
    pub data: Option<JsonV>,
}

pub open spec fn opt_jsonv(p: Option<Json>) -> Option<JsonV> {
    match p {
        Some(j) => Some(j@),
        None => None,
    }
}

impl View for RpcError {
    type V = RpcErrorV;

    open spec fn view(&self) -> RpcErrorV {
        RpcErrorV { code: self.code as int, message: self.message@, data: opt_jsonv(self.data) }
    }
}

/// One JSON-RPC message.
#[derive(Debug, PartialEq)]
pub enum Message {
    Request { id: RpcId, method: String, params: Option<Json> },
    Notification { method: String, params: Option<Json> },
    Response { id: RpcId, result: Result<Json, RpcError> },
}

pub enum MessageV {
    Request { id: RpcIdV, method: Seq<char>, params: Option<JsonV> },
    Notification { method: Seq<char>, params: Option<JsonV> },
    Response { id: RpcIdV, result: Result<JsonV, RpcErrorV> },
}

impl View for Message {
    type V = MessageV;

    open spec fn view(&self) -> MessageV {
        match self {
            Message::Request { id, method, params } => MessageV::Request {
                id: id@,
                method: method@,
                params: opt_jsonv(*params),
            },
            Message::Notification { method, params } => MessageV::Notification {
                method: method@,
                params: opt_jsonv(*params),
            },
            Message::Response { id, result } => MessageV::Response {
                id: id@,
                result: match result {
                    Ok(j) => Ok(j@),
                    Err(e) => Err(e@),
                },
            },
        }
    }
}

pub open spec fn id_jsonv(id: RpcIdV) -> JsonV {
    match id {
        RpcIdV::S(s) => JsonV::Str(s),
        RpcIdV::N(n) => JsonV::Int(n),
    }
}

pub open spec fn params_members(p: Option<JsonV>) -> Seq<(Seq<char>, JsonV)> {
    match p {
        Some(v) => seq![("params"@, v)],
        None => Seq::empty(),
    }
}

pub open spec fn data_members(p: Option<JsonV>) -> Seq<(Seq<char>, JsonV)> {
    match p {
        Some(v) => seq![("data"@, v)],
        None => Seq::empty(),
    }
}

pub open spec fn err_jsonv(e: RpcErrorV) -> JsonV {
    JsonV::Obj(
        seq![("code"@, JsonV::Int(e.code)), ("message"@, JsonV::Str(e.message))] + data_members(
            e.data,
        ),
    )
}

/// The JSON object a message is written as.
pub open spec fn msg_jsonv(m: MessageV) -> JsonV {
    match m {
        MessageV::Request { id, method, params } => JsonV::Obj(
            seq![
                ("jsonrpc"@, JsonV::Str("2.0"@)),
                ("id"@, id_jsonv(id)),
                ("method"@, JsonV::Str(method)),
            ] + params_members(params),
        ),
        MessageV::Notification { method, params } => JsonV::Obj(
            seq![("jsonrpc"@, JsonV::Str("2.0"@)), ("method"@, JsonV::Str(method))]
                + params_members(params),
        ),
        MessageV::Response { id, result } => match result {
            Ok(r) => JsonV::Obj(
                seq![
                    ("jsonrpc"@, JsonV::Str("2.0"@)),
                    ("id"@, id_jsonv(id)),
                    ("result"@, r),
                ],
            ),
            Err(e) => JsonV::Obj(
                seq![
                    ("jsonrpc"@, JsonV::Str("2.0"@)),
                    ("id"@, id_jsonv(id)),
                    ("error"@, err_jsonv(e)),
                ],
            ),
        },
    }
}

/// First binding of a key in an object, reading members left to right.
pub open spec fn obj_lookup(ms: Seq<(Seq<char>, JsonV)>, k: Seq<char>) -> Option<JsonV>
    decreases ms.len(),
{
    if ms.len() == 0 {
        None
    } else if ms[0].0 == k {
        Some(ms[0].1)
    } else {
        obj_lookup(ms.drop_first(), k)
    }
}

/// Reads a JSON value back as a message, by the structural discriminator.
pub open spec fn classify(v: JsonV) -> Option<MessageV> {
    match v {
        JsonV::Obj(ms) => if !(obj_lookup(ms, "jsonrpc"@) matches Some(JsonV::Str(_))) {
            None
        } else {
            let idj = obj_lookup(ms, "id"@);
            let methodj = obj_lookup(ms, "method"@);
            match (idj, methodj) {
                (Some(idv), Some(mj)) => match (idv, mj) {
                    (JsonV::Str(s), JsonV::Str(method)) => Some(
                        MessageV::Request {
                            id: RpcIdV::S(s),
                            method,
                            params: obj_lookup(ms, "params"@),
                        },
                    ),
                    (JsonV::Int(n), JsonV::Str(method)) => Some(
                        MessageV::Request {
                            id: RpcIdV::N(n),
                            method,
                            params: obj_lookup(ms, "params"@),
                        },
                    ),
                    _ => None,
                },
                (None, Some(mj)) => match mj {
                    JsonV::Str(method) => Some(
                        MessageV::Notification { method, params: obj_lookup(ms, "params"@) },
                    ),
                    _ => None,
                },
                (Some(idv), None) => {
                    let id = match idv {
                        JsonV::Str(s) => Some(RpcIdV::S(s)),
                        JsonV::Int(n) => Some(RpcIdV::N(n)),
                        _ => None,
                    };
                    match id {
                        Some(id) => match (obj_lookup(ms, "result"@), obj_lookup(ms, "error"@)) {
                            (Some(r), None) => Some(MessageV::Response { id, result: Ok(r) }),
                            (None, Some(ej)) => match ej {
                                JsonV::Obj(ems) => match (
                                    obj_lookup(ems, "code"@),
                                    obj_lookup(ems, "message"@),
                                ) {
                                    (Some(JsonV::Int(code)), Some(JsonV::Str(message))) => Some(
                                        MessageV::Response {
                                            id,
                                            result: Err(
                                                RpcErrorV {
                                                    code,
                                                    message,
                                                    data: obj_lookup(ems, "data"@),
                                                },
                                            ),
                                        },
                                    ),
                                    _ => None,
                                },
                                _ => None,
                            },
                            _ => None,
                        },
                        None => None,
                    }
                },
                (None, None) => None,
            }
        },
        _ => None,
    }
}

/// First binding of `key`, as a reference into the object.
pub fn obj_get<'a>(ms: &'a Vec<(String, Json)>, key: &str) -> (r: Option<&'a Json>)
    ensures
        match (r, obj_lookup(view_json_pairs(ms@), key@)) {
            (Some(j), Some(v)) => j@ == v,
            (None, None) => true,
            _ => false,
        },
{
    proof {
        lemma_view_json_pairs(ms@);
        assert(view_json_pairs(ms@).skip(0) =~= view_json_pairs(ms@));
    }
    let n = ms.len();
    let mut i: usize = 0;
    while i < n
        invariant
            i <= n,
            n == ms@.len(),
            obj_lookup(view_json_pairs(ms@), key@) == obj_lookup(
                view_json_pairs(ms@).skip(i as int),
                key@,
            ),
            view_json_pairs(ms@).len() == ms@.len(),
            forall|q: int| 0 <= q < ms@.len() ==> #[trigger] view_json_pairs(ms@)[q] == (
                ms@[q].0@,
                view_json(ms@[q].1),
            ),
        decreases n - i,
    {
        let ghost tailv = view_json_pairs(ms@).skip(i as int);
        proof {
            assert(tailv[0] == view_json_pairs(ms@)[i as int]);
        }
        if crate::json::str_eq(ms[i].0.as_str(), key) {
            return Some(&ms[i].1);
        }
        proof {
            assert(tailv.drop_first() =~= view_json_pairs(ms@).skip(i + 1));
        }
        i = i + 1;
    }
    proof {
        assert(view_json_pairs(ms@).skip(n as int) =~= Seq::<(Seq<char>, JsonV)>::empty());
    }
    None
}

fn id_to_json(id: RpcId) -> (j: Json)
    ensures
        j@ == id_jsonv(id@),
{
    match id {
        RpcId::S(s) => Json::Str(s),
        RpcId::N(n) => Json::Int(n),
    }
}

/// The JSON object form of a message.
pub fn message_to_json(m: Message) -> (j: Json)
    ensures
        j@ == msg_jsonv(m@),
{
    let ghost mv = m@;
    match m {
        Message::Request { id, method, params } => {
            let mut ms: Vec<(String, Json)> = Vec::new();
            ms.push((String::from_str("jsonrpc"), Json::Str(String::from_str("2.0"))));
            ms.push((String::from_str("id"), id_to_json(id)));
            ms.push((String::from_str("method"), Json::Str(method)));
            match params {
                Some(p) => {
                    ms.push((String::from_str("params"), p));
                },
                None => {},
            }
            let j = Json::Obj(ms);
            proof {
                lemma_view_json_pairs(ms@);
                assert(view_json_pairs(ms@) =~= (match mv {
                    MessageV::Request { id, method, params } => seq![
                        ("jsonrpc"@, JsonV::Str("2.0"@)),
                        ("id"@, id_jsonv(id)),
                        ("method"@, JsonV::Str(method)),
                    ] + params_members(params),
                    _ => Seq::empty(),
                }));
            }
            j
        },
        Message::Notification { method, params } => {
            let mut ms: Vec<(String, Json)> = Vec::new();
            ms.push((String::from_str("jsonrpc"), Json::Str(String::from_str("2.0"))));
            ms.push((String::from_str("method"), Json::Str(method)));
            match params {
                Some(p) => {
                    ms.push((String::from_str("params"), p));
                },
                None => {},
            }
            let j = Json::Obj(ms);
            proof {
                lemma_view_json_pairs(ms@);
                assert(view_json_pairs(ms@) =~= (match mv {
                    MessageV::Notification { method, params } => seq![
                        ("jsonrpc"@, JsonV::Str("2.0"@)),
                        ("method"@, JsonV::Str(method)),
                    ] + params_members(params),
                    _ => Seq::empty(),
                }));
            }
            j
        },
        Message::Response { id, result } => {
            let mut ms: Vec<(String, Json)> = Vec::new();
            ms.push((String::from_str("jsonrpc"), Json::Str(String::from_str("2.0"))));
            ms.push((String::from_str("id"), id_to_json(id)));
            match result {
                Ok(r) => {
                    ms.push((String::from_str("result"), r));
                },
                Err(e) => {
                    let mut ems: Vec<(String, Json)> = Vec::new();
                    ems.push((String::from_str("code"), Json::Int(e.code)));
                    ems.push((String::from_str("message"), Json::Str(e.message)));
                    match e.data {
                        Some(d) => {
                            ems.push((String::from_str("data"), d));
                        },
                        None => {},
                    }
                    proof {
                        lemma_view_json_pairs(ems@);
                        assert(view_json_pairs(ems@) =~= (match mv {
                            MessageV::Response { id, result: Err(ev) } => seq![
                                ("code"@, JsonV::Int(ev.code)),
                                ("message"@, JsonV::Str(ev.message)),
                            ] + data_members(ev.data),
                            _ => Seq::empty(),
                        }));
                    }
                    ms.push((String::from_str("error"), Json::Obj(ems)));
                },
            }
            let j = Json::Obj(ms);
            proof {
                lemma_view_json_pairs(ms@);
                assert(view_json_pairs(ms@) =~= (match mv {
                    MessageV::Response { id, result } => match result {
                        Ok(r) => seq![
                            ("jsonrpc"@, JsonV::Str("2.0"@)),
                            ("id"@, id_jsonv(id)),
                            ("result"@, r),
                        ],
                        Err(e) => seq![
                            ("jsonrpc"@, JsonV::Str("2.0"@)),
                            ("id"@, id_jsonv(id)),
                            ("error"@, err_jsonv(e)),
                        ],
                    },
                    _ => Seq::empty(),
                }));
            }
            j
        },
    }
}

/// One wire line for a message: its JSON object, serialized, no newline.
pub fn encode_message(m: Message) -> (line: String)
    ensures
        line@ == ser(msg_jsonv(m@)),
{
    let j = message_to_json(m);
    let cs = to_chars(&j);
    chars_to_string(&cs)
}

/// Reads a parsed JSON value back as a message.
pub fn classify_json(j: &Json) -> (r: Option<Message>)
    ensures
        match (r, classify(j@)) {
            (Some(m), Some(mv)) => m@ == mv,
            (None, None) => true,
            _ => false,
        },
{
    let ms = match j {
        Json::Obj(ms) => ms,
        _ => {
            return None;
        },
    };
    let jsonrpc_ok = match obj_get(&ms, "jsonrpc") {
        Some(v) => (match v {
            Json::Str(_) => true,
            _ => false,
        }),
        None => false,
    };
    if !jsonrpc_ok {
        return None;
    }
    let idj = obj_get(&ms, "id");
    let id: Option<RpcId> = match idj {
        Some(v) => match v {
            Json::Str(s) => Some(RpcId::S(s.clone())),
            Json::Int(n) => Some(RpcId::N(*n)),
            _ => None,
        },
        None => None,
    };
    let ghost id_present = obj_lookup(view_json_pairs(ms@), "id"@) is Some;
    let methodj = obj_get(&ms, "method");
    match (id_present_x(idj), methodj) {
        (true, Some(mj)) => {
            let method = match mj {
                Json::Str(s) => s.clone(),
                _ => {
                    return None;
                },
            };
            match id {
                Some(id) => {
                    let params = match obj_get(&ms, "params") {
                        Some(p) => Some(p.clone()),
                        None => None,
                    };
                    Some(Message::Request { id, method, params })
                },
                None => None,
            }
        },
        (false, Some(mj)) => {
            let method = match mj {
                Json::Str(s) => s.clone(),
                _ => {
                    return None;
                },
            };
            let params = match obj_get(&ms, "params") {
                Some(p) => Some(p.clone()),
                None => None,
            };
            Some(Message::Notification { method, params })
        },
        (true, None) => {
            let id = match id {
                Some(id) => id,
                None => {
                    return None;
                },
            };
            let resultj = obj_get(&ms, "result");
            let errorj = obj_get(&ms, "error");
            match (resultj, errorj) {
                (Some(r), None) => Some(
                    Message::Response { id, result: Ok(r.clone()) },
                ),
                (None, Some(ej)) => {
                    let ems = match ej {
                        Json::Obj(ems) => ems,
                        _ => {
                            return None;
                        },
                    };
                    let code: i64 = match obj_get(ems, "code") {
                        Some(cj) => match cj {
                            Json::Int(n) => *n,
                            _ => {
                                return None;
                            },
                        },
                        None => {
                            return None;
                        },
                    };
                    let message: String = match obj_get(ems, "message") {
                        Some(mj2) => match mj2 {
                            Json::Str(s) => s.clone(),
                            _ => {
                                return None;
                            },
                        },
                        None => {
                            return None;
                        },
                    };
                    let data = match obj_get(ems, "data") {
                        Some(d) => Some(d.clone()),
                        None => None,
                    };
                    Some(
                        Message::Response {
                            id,
                            result: Err(RpcError { code, message, data }),
                        },
                    )
                },
                _ => None,
            }
        },
        (false, None) => None,
    }
}

fn id_present_x(idj: Option<&Json>) -> (r: bool)
    ensures
        r == (idj is Some),
{
    match idj {
        Some(_) => true,
        None => false,
    }
}

/// The id of a value that is shaped like a response — an object with a
/// string `jsonrpc`, an id and no `method` — whether or not its body makes
/// a valid response.
pub open spec fn response_shaped_id(v: JsonV) -> Option<RpcIdV> {
    match v {
        JsonV::Obj(ms) => if (obj_lookup(ms, "jsonrpc"@) matches Some(JsonV::Str(_)))
            && obj_lookup(ms, "method"@) is None {
            match obj_lookup(ms, "id"@) {
                Some(JsonV::Str(s)) => Some(RpcIdV::S(s)),
                Some(JsonV::Int(n)) => Some(RpcIdV::N(n)),
                _ => None,
            }
        } else {
            None
        },
        _ => None,
    }
}

fn response_shaped_id_x(j: &Json) -> (r: Option<RpcId>)
    ensures
        match (r, response_shaped_id(j@)) {
            (Some(id), Some(idv)) => id@ == idv,
            (None, None) => true,
            _ => false,
        },
{
    let ms = match j {
        Json::Obj(ms) => ms,
        _ => {
            return None;
        },
    };
    let jsonrpc_ok = match obj_get(ms, "jsonrpc") {
        Some(v) => (match v {
            Json::Str(_) => true,
            _ => false,
        }),
        None => false,
    };
    if !jsonrpc_ok {
        return None;
    }
    if id_present_x(obj_get(ms, "method")) {
        return None;
    }
    match obj_get(ms, "id") {
        Some(v) => match v {
            Json::Str(s) => Some(RpcId::S(s.clone())),
            Json::Int(n) => Some(RpcId::N(*n)),
            _ => None,
        },
        None => None,
    }
}

/// What one stdout line holds.
#[derive(Debug, PartialEq)]
pub enum Inbound {
    /// Empty or whitespace-only: skipped.
    Blank,
    /// Not one JSON text, or not a message: logged and dropped.
    Malformed,
    Msg(Message),
    /// Shaped like a response — id, no method — but with no valid `result`
    /// or `error`: surfaced to the request's caller as a protocol failure.
    InvalidResponse { id: RpcId },
}

pub enum InboundV {
    Blank,
    Malformed,
    Msg(MessageV),
    InvalidResponse { id: RpcIdV },
}

impl View for Inbound {
    type V = InboundV;

    open spec fn view(&self) -> InboundV {
        match self {
            Inbound::Blank => InboundV::Blank,
            Inbound::Malformed => InboundV::Malformed,
            Inbound::Msg(m) => InboundV::Msg(m@),
            Inbound::InvalidResponse { id } => InboundV::InvalidResponse { id: id@ },
        }
    }
}

/// What the stdout reader does with one line.
pub open spec fn decode_spec(line: Seq<char>) -> InboundV {
    if skip_ws(line, 0) == line.len() {
        InboundV::Blank
    } else {
        match p_text(line) {
            None => InboundV::Malformed,
            Some(v) => match classify(v) {
                Some(m) => InboundV::Msg(m),
                None => match response_shaped_id(v) {
                    Some(id) => InboundV::InvalidResponse { id },
                    None => InboundV::Malformed,
                },
            },
        }
    }
}

/// Classifies one line from the child's stdout. A blank line is skipped; a
/// line that is not one JSON-RPC message is reported malformed, unless it is
/// at least shaped like a response, whose caller then learns of the bad
/// reply; nothing else is disturbed.
pub fn decode_line(line: &str) -> (r: Inbound)
    ensures
        r@ == decode_spec(line@),
{
    let cs = string_to_chars(line);
    let ws_end = crate::json::x_skip_ws(&cs, 0);
    if ws_end == cs.len() {
        return Inbound::Blank;
    }
    match parse_chars(&cs) {
        None => Inbound::Malformed,
        Some(v) => match classify_json(&v) {
            Some(m) => Inbound::Msg(m),
            None => match response_shaped_id_x(&v) {
                Some(id) => Inbound::InvalidResponse { id },
                None => Inbound::Malformed,
            },
        },
    }
}

proof fn lemma_keys_distinct()
    ensures
        "jsonrpc"@ != "id"@,
        "jsonrpc"@ != "method"@,
        "jsonrpc"@ != "params"@,
        "jsonrpc"@ != "result"@,
        "jsonrpc"@ != "error"@,
        "id"@ != "method"@,
        "id"@ != "params"@,
        "id"@ != "result"@,
        "id"@ != "error"@,
        "method"@ != "params"@,
        "method"@ != "result"@,
        "method"@ != "error"@,
        "params"@ != "result"@,
        "params"@ != "error"@,
        "result"@ != "error"@,
        "code"@ != "message"@,
        "code"@ != "data"@,
        "message"@ != "data"@,
{
    reveal_strlit("jsonrpc");
    reveal_strlit("id");
    reveal_strlit("method");
    reveal_strlit("params");
    reveal_strlit("result");
    reveal_strlit("error");
    reveal_strlit("code");
    reveal_strlit("message");
    reveal_strlit("data");
    assert("jsonrpc"@.len() == 7);
    assert("id"@.len() == 2);
    assert("method"@.len() == 6);
    assert("params"@.len() == 6);
    assert("result"@.len() == 6);
    assert("error"@.len() == 5);
    assert("code"@.len() == 4);
    assert("message"@.len() == 7);
    assert("data"@.len() == 4);
    assert("method"@[0] == 'm' && "params"@[0] == 'p' && "result"@[0] == 'r');
    assert("code"@[0] == 'c' && "data"@[0] == 'd');
}

proof fn lemma_lookup_hit(pre: Seq<(Seq<char>, JsonV)>, k: Seq<char>, v: JsonV, rest: Seq<
    (Seq<char>, JsonV),
>)
    requires
        forall|i: int| 0 <= i < pre.len() ==> (#[trigger] pre[i]).0 != k,
    ensures
        obj_lookup(pre + seq![(k, v)] + rest, k) == Some(v),
    decreases pre.len(),
{
    let ms = pre + seq![(k, v)] + rest;
    if pre.len() == 0 {
        assert(ms[0] == (k, v));
    } else {
        assert(ms[0] == pre[0]);
        assert(ms.drop_first() =~= pre.drop_first() + seq![(k, v)] + rest);
        lemma_lookup_hit(pre.drop_first(), k, v, rest);
    }
}

proof fn lemma_lookup_miss(ms: Seq<(Seq<char>, JsonV)>, k: Seq<char>)
    requires
        forall|i: int| 0 <= i < ms.len() ==> (#[trigger] ms[i]).0 != k,
    ensures
        obj_lookup(ms, k) == None::<JsonV>,
    decreases ms.len(),
{
    if ms.len() > 0 {
        lemma_lookup_miss(ms.drop_first(), k);
    }
}

/// Wire round trip, message side: the object a message is written as reads
/// back as the same message. Absent optional members stay absent.
pub proof fn lemma_classify_msg(m: MessageV)
    ensures
        classify(msg_jsonv(m)) == Some(m),
{
    lemma_keys_distinct();
    match m {
        MessageV::Request { id, method, params } => {
            let base = seq![
                ("jsonrpc"@, JsonV::Str("2.0"@)),
                ("id"@, id_jsonv(id)),
                ("method"@, JsonV::Str(method)),
            ];
            let ms = base + params_members(params);
            assert(ms[0] == ("jsonrpc"@, JsonV::Str("2.0"@)));
            assert(obj_lookup(ms, "jsonrpc"@) == Some(JsonV::Str("2.0"@)));
            lemma_lookup_hit(seq![ms[0]], "id"@, id_jsonv(id), seq![ms[2]] + params_members(params));
            assert(seq![ms[0]] + seq![("id"@, id_jsonv(id))] + (seq![ms[2]] + params_members(
                params,
            )) =~= ms);
            lemma_lookup_hit(seq![ms[0], ms[1]], "method"@, JsonV::Str(method), params_members(params));
            assert(seq![ms[0], ms[1]] + seq![("method"@, JsonV::Str(method))] + params_members(
                params,
            ) =~= ms);
            match params {
                Some(p) => {
                    lemma_lookup_hit(base, "params"@, p, Seq::empty());
                    assert(base + seq![("params"@, p)] + Seq::<(Seq<char>, JsonV)>::empty() =~= ms);
                },
                None => {
                    assert(ms =~= base);
                    lemma_lookup_miss(base, "params"@);
                },
            }
        },
        MessageV::Notification { method, params } => {
            let base = seq![("jsonrpc"@, JsonV::Str("2.0"@)), ("method"@, JsonV::Str(method))];
            let ms = base + params_members(params);
            assert(ms[0] == ("jsonrpc"@, JsonV::Str("2.0"@)));
            assert(obj_lookup(ms, "jsonrpc"@) == Some(JsonV::Str("2.0"@)));
            assert(forall|i: int| 0 <= i < ms.len() ==> (#[trigger] ms[i]).0 != "id"@);
            lemma_lookup_miss(ms, "id"@);
            lemma_lookup_hit(seq![ms[0]], "method"@, JsonV::Str(method), params_members(params));
            assert(seq![ms[0]] + seq![("method"@, JsonV::Str(method))] + params_members(params)
                =~= ms);
            match params {
                Some(p) => {
                    lemma_lookup_hit(base, "params"@, p, Seq::empty());
                    assert(base + seq![("params"@, p)] + Seq::<(Seq<char>, JsonV)>::empty() =~= ms);
                },
                None => {
                    assert(ms =~= base);
                    lemma_lookup_miss(base, "params"@);
                },
            }
        },
        MessageV::Response { id, result } => {
            match result {
                Ok(r) => {
                    let ms = seq![
                        ("jsonrpc"@, JsonV::Str("2.0"@)),
                        ("id"@, id_jsonv(id)),
                        ("result"@, r),
                    ];
                    assert(obj_lookup(ms, "jsonrpc"@) == Some(JsonV::Str("2.0"@)));
                    lemma_lookup_hit(seq![ms[0]], "id"@, id_jsonv(id), seq![ms[2]]);
                    assert(seq![ms[0]] + seq![("id"@, id_jsonv(id))] + seq![ms[2]] =~= ms);
                    lemma_lookup_miss(ms, "method"@);
                    lemma_lookup_hit(seq![ms[0], ms[1]], "result"@, r, Seq::empty());
                    assert(seq![ms[0], ms[1]] + seq![("result"@, r)] + Seq::<
                        (Seq<char>, JsonV),
                    >::empty() =~= ms);
                    lemma_lookup_miss(ms, "error"@);
                },
                Err(e) => {
                    let ej = err_jsonv(e);
                    let ms = seq![
                        ("jsonrpc"@, JsonV::Str("2.0"@)),
                        ("id"@, id_jsonv(id)),
                        ("error"@, ej),
                    ];
                    assert(obj_lookup(ms, "jsonrpc"@) == Some(JsonV::Str("2.0"@)));
                    lemma_lookup_hit(seq![ms[0]], "id"@, id_jsonv(id), seq![ms[2]]);
                    assert(seq![ms[0]] + seq![("id"@, id_jsonv(id))] + seq![ms[2]] =~= ms);
                    lemma_lookup_miss(ms, "method"@);
                    lemma_lookup_miss(ms, "result"@);
                    lemma_lookup_hit(seq![ms[0], ms[1]], "error"@, ej, Seq::empty());
                    assert(seq![ms[0], ms[1]] + seq![("error"@, ej)] + Seq::<
                        (Seq<char>, JsonV),
                    >::empty() =~= ms);
                    let ebase = seq![("code"@, JsonV::Int(e.code)), ("message"@, JsonV::Str(e.message))];
                    let ems = ebase + data_members(e.data);
                    assert(ems[0] == ("code"@, JsonV::Int(e.code)));
                    assert(obj_lookup(ems, "code"@) == Some(JsonV::Int(e.code)));
                    lemma_lookup_hit(seq![ems[0]], "message"@, JsonV::Str(e.message), data_members(e.data));
                    assert(seq![ems[0]] + seq![("message"@, JsonV::Str(e.message))] + data_members(
                        e.data,
                    ) =~= ems);
                    match e.data {
                        Some(d) => {
                            lemma_lookup_hit(ebase, "data"@, d, Seq::empty());
                            assert(ebase + seq![("data"@, d)] + Seq::<
                                (Seq<char>, JsonV),
                            >::empty() =~= ems);
                        },
                        None => {
                            assert(ems =~= ebase);
                            lemma_lookup_miss(ebase, "data"@);
                        },
                    }
                },
            }
        },
    }
}

proof fn lemma_nums_wf_pairs_cons(x: (Seq<char>, JsonV), rest: Seq<(Seq<char>, JsonV)>)
    requires
        x.1.nums_wf(),
        crate::json::nums_wf_pairs(rest),
    ensures
        crate::json::nums_wf_pairs(seq![x] + rest),
{
    assert((seq![x] + rest)[0] == x);
    assert((seq![x] + rest).drop_first() =~= rest);
}

pub open spec fn opt_nums_wf(p: Option<JsonV>) -> bool {
    match p {
        Some(v) => v.nums_wf(),
        None => true,
    }
}

/// Every payload the message carries has well-formed numbers: 64-bit
/// integers, and kept spellings that are complete non-integer tokens. This
/// holds of everything the parser hands out and of any payload built from
/// the library's own values.
pub open spec fn payloads_wf(m: MessageV) -> bool {
    match m {
        MessageV::Request { params, .. } => opt_nums_wf(params),
        MessageV::Notification { params, .. } => opt_nums_wf(params),
        MessageV::Response { result, .. } => match result {
            Ok(r) => r.nums_wf(),
            Err(e) => opt_nums_wf(e.data),
        },
    }
}

proof fn lemma_params_members_wf(p: Option<JsonV>)
    requires
        opt_nums_wf(p),
    ensures
        crate::json::nums_wf_pairs(params_members(p)),
{
    match p {
        Some(v) => {
            lemma_nums_wf_pairs_cons(("params"@, v), Seq::empty());
            assert(seq![("params"@, v)] + Seq::<(Seq<char>, JsonV)>::empty() =~= params_members(
                p,
            ));
        },
        None => {},
    }
}

/// A message with well-formed payloads serializes to a value whose numbers
/// are all well formed.
proof fn lemma_message_nums_wf(m: Message)
    requires
        payloads_wf(m@),
    ensures
        msg_jsonv(m@).nums_wf(),
{
    match m {
        Message::Request { id, method, params } => {
            let a = ("jsonrpc"@, JsonV::Str("2.0"@));
            let b = ("id"@, id_jsonv(id@));
            let c = ("method"@, JsonV::Str(method@));
            let rest = params_members(opt_jsonv(params));
            lemma_params_members_wf(opt_jsonv(params));
            lemma_nums_wf_pairs_cons(c, rest);
            lemma_nums_wf_pairs_cons(b, seq![c] + rest);
            lemma_nums_wf_pairs_cons(a, seq![b] + (seq![c] + rest));
            assert(seq![a] + (seq![b] + (seq![c] + rest)) =~= seq![a, b, c] + rest);
        },
        Message::Notification { method, params } => {
            let a = ("jsonrpc"@, JsonV::Str("2.0"@));
            let b = ("method"@, JsonV::Str(method@));
            let rest = params_members(opt_jsonv(params));
            lemma_params_members_wf(opt_jsonv(params));
            lemma_nums_wf_pairs_cons(b, rest);
            lemma_nums_wf_pairs_cons(a, seq![b] + rest);
            assert(seq![a] + (seq![b] + rest) =~= seq![a, b] + rest);
        },
        Message::Response { id, result } => {
            let a = ("jsonrpc"@, JsonV::Str("2.0"@));
            let b = ("id"@, id_jsonv(id@));
            match result {
                Ok(r) => {
                    let c = ("result"@, r@);
                    lemma_nums_wf_pairs_cons(c, Seq::empty());
                    assert(seq![c] + Seq::<(Seq<char>, JsonV)>::empty() =~= seq![c]);
                    lemma_nums_wf_pairs_cons(b, seq![c]);
                    lemma_nums_wf_pairs_cons(a, seq![b] + seq![c]);
                    assert(seq![a] + (seq![b] + seq![c]) =~= seq![a, b, c]);
                },
                Err(e) => {
                    let ec = ("code"@, JsonV::Int(e@.code));
                    let em = ("message"@, JsonV::Str(e@.message));
                    let erest = data_members(e@.data);
                    match e.data {
                        Some(d) => {
                            lemma_nums_wf_pairs_cons(("data"@, d@), Seq::empty());
                            assert(seq![("data"@, d@)] + Seq::<(Seq<char>, JsonV)>::empty()
                                =~= erest);
                        },
                        None => {},
                    }
                    lemma_nums_wf_pairs_cons(em, erest);
                    lemma_nums_wf_pairs_cons(ec, seq![em] + erest);
                    assert(seq![ec] + (seq![em] + erest) =~= seq![ec, em] + erest);
                    let c = ("error"@, err_jsonv(e@));
                    assert(c.1.nums_wf());
                    lemma_nums_wf_pairs_cons(c, Seq::empty());
                    assert(seq![c] + Seq::<(Seq<char>, JsonV)>::empty() =~= seq![c]);
                    lemma_nums_wf_pairs_cons(b, seq![c]);
                    lemma_nums_wf_pairs_cons(a, seq![b] + seq![c]);
                    assert(seq![a] + (seq![b] + seq![c]) =~= seq![a, b, c]);
                },
            }
        },
    }
}

/// Wire round trip: the line written for any message whose payloads carry
/// well-formed numbers reads back as exactly that message — same kind, same
/// id, same method, same payload, absent optional members still absent.
/// The premise holds of every payload the parser produced and of anything
/// built without a hand-made number spelling.
pub proof fn lemma_message_round_trip(m: Message)
    requires
        payloads_wf(m@),
    ensures
        decode_spec(ser(msg_jsonv(m@))) == InboundV::Msg(m@),
{
    let v = msg_jsonv(m@);
    let line = ser(v);
    lemma_message_nums_wf(m);
    crate::json::lemma_text_round_trip(v);
    lemma_classify_msg(m@);
    assert(line[0] == '{');
    assert(!crate::json::is_ws('{'));
    assert(skip_ws(line, 0) == 0);
    assert(line.len() >= 1);
}

} // verus!
