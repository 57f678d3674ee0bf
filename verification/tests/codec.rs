use mcp_client::json::Json;
use mcp_client::json::parse_chars;
use mcp_client::json::str_eq;
use mcp_client::json::string_to_chars;
use mcp_client::json::to_chars;
use mcp_client::rpc::Inbound;
use mcp_client::rpc::Message;
use mcp_client::rpc::RpcError;
use mcp_client::rpc::RpcId;
use mcp_client::rpc::decode_line;
use mcp_client::rpc::encode_message;

fn parse(text: &str) -> Option<Json> {
    parse_chars(&string_to_chars(text))
}

fn render(j: &Json) -> String {
    to_chars(j).iter().collect()
}

fn s(text: &str) -> String {
    text.to_string()
}

#[test]
fn parses_scalars() {
    assert_eq!(parse("null"), Some(Json::Null));
    assert_eq!(parse("true"), Some(Json::Bool(true)));
    assert_eq!(parse("false"), Some(Json::Bool(false)));
    assert_eq!(parse("  -123  "), Some(Json::Int(-123)));
    assert_eq!(parse("0"), Some(Json::Int(0)));
    assert_eq!(parse("\"hi\""), Some(Json::Str(s("hi"))));
}

#[test]
fn parses_integer_extremes() {
    assert_eq!(parse("9223372036854775807"), Some(Json::Int(i64::MAX)));
    assert_eq!(parse("-9223372036854775808"), Some(Json::Int(i64::MIN)));
    assert_eq!(parse("9223372036854775808"), Some(Json::Num(s("9223372036854775808"))));
    assert_eq!(parse("-9223372036854775809"), Some(Json::Num(s("-9223372036854775809"))));
}

#[test]
fn keeps_non_integer_numbers_verbatim() {
    assert_eq!(parse("1.5"), Some(Json::Num(s("1.5"))));
    assert_eq!(parse("1e3"), Some(Json::Num(s("1e3"))));
    assert_eq!(parse("-2.25E+10"), Some(Json::Num(s("-2.25E+10"))));
    assert_eq!(parse("99999999999999999999"), Some(Json::Num(s("99999999999999999999"))));
    assert_eq!(render(&Json::Num(s("1.5"))), "1.5");
    let v = Json::Arr(vec![Json::Num(s("0.5")), Json::Int(2)]);
    let text = render(&v);
    assert_eq!(text, "[0.5,2]");
    assert_eq!(parse(&text), Some(v));
}

#[test]
fn rejects_junk() {
    assert_eq!(parse("1."), None);
    assert_eq!(parse("1e"), None);
    assert_eq!(parse("1e+"), None);
    assert_eq!(parse("-"), None);
    assert_eq!(parse(".5"), None);
    assert_eq!(parse("nul"), None);
    assert_eq!(parse("{"), None);
    assert_eq!(parse("[1,]"), None);
    assert_eq!(parse("true false"), None);
    assert_eq!(parse(""), None);
}

#[test]
fn parses_string_escapes() {
    assert_eq!(parse("\"a\\nb\""), Some(Json::Str(s("a\nb"))));
    assert_eq!(parse("\"q\\\"q\""), Some(Json::Str(s("q\"q"))));
    assert_eq!(parse("\"\\\\\""), Some(Json::Str(s("\\"))));
    assert_eq!(parse("\"\\u0041\""), Some(Json::Str(s("A"))));
    assert_eq!(parse("\"\\u0009\""), Some(Json::Str(s("\t"))));
    assert_eq!(parse("\"\\uZZZZ\""), None);
}

#[test]
fn parses_containers() {
    assert_eq!(
        parse("[1, [2], {}]"),
        Some(Json::Arr(vec![
            Json::Int(1),
            Json::Arr(vec![Json::Int(2)]),
            Json::Obj(vec![]),
        ]))
    );
    assert_eq!(
        parse("{\"a\": 1, \"b\": [true]}"),
        Some(Json::Obj(vec![
            (s("a"), Json::Int(1)),
            (s("b"), Json::Arr(vec![Json::Bool(true)])),
        ]))
    );
    assert_eq!(parse("[]"), Some(Json::Arr(vec![])));
}

#[test]
fn serializes_exactly() {
    let v = Json::Obj(vec![
        (s("a"), Json::Str(s("x\"y"))),
        (s("b"), Json::Arr(vec![Json::Int(-5), Json::Null])),
    ]);
    assert_eq!(render(&v), "{\"a\":\"x\\\"y\",\"b\":[-5,null]}");
    assert_eq!(render(&Json::Str(s("tab\tend"))), "\"tab\\u0009end\"");
}

#[test]
fn value_round_trips() {
    let v = Json::Obj(vec![
        (s("name"), Json::Str(s("echo"))),
        (s("n"), Json::Int(i64::MIN)),
        (s("flags"), Json::Arr(vec![Json::Bool(true), Json::Bool(false), Json::Null])),
        (s("nested"), Json::Obj(vec![(s("quote\""), Json::Str(s("line\nbreak")))])),
    ]);
    let text = render(&v);
    assert_eq!(parse(&text), Some(v));
}

#[test]
fn str_eq_matches_contents() {
    assert!(str_eq("abc", "abc"));
    assert!(!str_eq("abc", "abd"));
    assert!(!str_eq("abc", "ab"));
    assert!(str_eq("", ""));
}

#[test]
fn encodes_request_line() {
    let m = Message::Request {
        id: RpcId::S(s("abc")),
        method: s("tools/list"),
        params: None,
    };
    assert_eq!(
        encode_message(m),
        "{\"jsonrpc\":\"2.0\",\"id\":\"abc\",\"method\":\"tools/list\"}"
    );
}

#[test]
fn encodes_notification_without_params() {
    let m = Message::Notification { method: s("initialized"), params: None };
    assert_eq!(encode_message(m), "{\"jsonrpc\":\"2.0\",\"method\":\"initialized\"}");
}

#[test]
fn decodes_blank_and_malformed_lines() {
    assert_eq!(decode_line(""), Inbound::Blank);
    assert_eq!(decode_line("   \t  "), Inbound::Blank);
    assert_eq!(decode_line("not json"), Inbound::Malformed);
    assert_eq!(decode_line("{\"jsonrpc\":\"2.0\"}"), Inbound::Malformed);
    assert_eq!(decode_line("[1,2,3]"), Inbound::Malformed);
    // a response may not carry both result and error, nor neither: still
    // response-shaped, so its caller is told rather than left to time out
    assert_eq!(
        decode_line("{\"jsonrpc\":\"2.0\",\"id\":\"x\",\"result\":1,\"error\":{\"code\":1,\"message\":\"m\"}}"),
        Inbound::InvalidResponse { id: RpcId::S(s("x")) }
    );
    assert_eq!(
        decode_line("{\"jsonrpc\":\"2.0\",\"id\":\"x\"}"),
        Inbound::InvalidResponse { id: RpcId::S(s("x")) }
    );
    assert_eq!(
        decode_line("{\"jsonrpc\":\"2.0\",\"id\":7,\"error\":{\"code\":\"bad\"}}"),
        Inbound::InvalidResponse { id: RpcId::N(7) }
    );
}

#[test]
fn decodes_response_with_error() {
    let line = "{\"jsonrpc\":\"2.0\",\"id\":\"x\",\"error\":{\"code\":-32001,\"message\":\"boom\"}}";
    assert_eq!(
        decode_line(line),
        Inbound::Msg(Message::Response {
            id: RpcId::S(s("x")),
            result: Err(RpcError { code: -32001, message: s("boom"), data: None }),
        })
    );
}

#[test]
fn message_round_trips_through_line() {
    let m = Message::Request {
        id: RpcId::S(s("id-1")),
        method: s("tools/call"),
        params: Some(Json::Obj(vec![(s("name"), Json::Str(s("echo")))])),
    };
    let again = Message::Request {
        id: RpcId::S(s("id-1")),
        method: s("tools/call"),
        params: Some(Json::Obj(vec![(s("name"), Json::Str(s("echo")))])),
    };
    let line = encode_message(m);
    assert_eq!(decode_line(&line), Inbound::Msg(again));

    let resp = Message::Response {
        id: RpcId::N(7),
        result: Err(RpcError { code: 3, message: s("m"), data: Some(Json::Int(1)) }),
    };
    let resp_again = Message::Response {
        id: RpcId::N(7),
        result: Err(RpcError { code: 3, message: s("m"), data: Some(Json::Int(1)) }),
    };
    let line2 = encode_message(resp);
    assert_eq!(decode_line(&line2), Inbound::Msg(resp_again));
}

#[test]
fn notifications_and_server_requests_classify() {
    let line = "{\"jsonrpc\":\"2.0\",\"method\":\"ping\",\"params\":{\"k\":1}}";
    assert_eq!(
        decode_line(line),
        Inbound::Msg(Message::Notification {
            method: s("ping"),
            params: Some(Json::Obj(vec![(s("k"), Json::Int(1))])),
        })
    );
    let req = "{\"jsonrpc\":\"2.0\",\"id\":\"9\",\"method\":\"sampling\"}";
    assert_eq!(
        decode_line(req),
        Inbound::Msg(Message::Request {
            id: RpcId::S(s("9")),
            method: s("sampling"),
            params: None,
        })
    );
}
