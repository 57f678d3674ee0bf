use mcp_client::host::connection_status_response;
use mcp_client::host::to_host_response;
use mcp_client::json::Json;
use mcp_client::json::parse_chars;
use mcp_client::json::string_to_chars;
use mcp_client::rpc::Message;
use mcp_client::rpc::RpcError;
use mcp_client::rpc::RpcId;
use mcp_client::session::CallToolResult;
use mcp_client::session::ClientState;
use mcp_client::session::ContentEntry;
use mcp_client::session::ListToolsAction;
use mcp_client::session::McpClientError;
use mcp_client::session::ProperMcpClient;
use mcp_client::session::call_tool_params;
use mcp_client::session::initialize_params;
use mcp_client::session::parse_call_tool_result;
use mcp_client::transport::Routed;
use mcp_client::transport::notification_line;
use mcp_client::transport::prepare_request;
use mcp_client::pending::PendingTable;

fn parse(text: &str) -> Json {
    parse_chars(&string_to_chars(text)).expect("test payload must parse")
}

fn s(text: &str) -> String {
    text.to_string()
}

const INIT_RESULT: &str = "{\"protocolVersion\":\"2024-11-05\",\"serverInfo\":{\"name\":\"s\",\"version\":\"0.1\"},\"capabilities\":{\"tools\":{\"list\":true}}}";
const INIT_RESULT_NO_TOOLS: &str = "{\"protocolVersion\":\"2024-11-05\",\"serverInfo\":{\"name\":\"s\",\"version\":\"0.1\"},\"capabilities\":{}}";

#[test]
fn happy_path_initialize() {
    let mut client = ProperMcpClient::new();
    assert_eq!(client.get_state(), ClientState::Disconnected);
    client.connect_started();
    assert_eq!(client.get_state(), ClientState::Connecting);

    // the initialize request that goes on the wire
    let params = initialize_params();
    let mut table: PendingTable<u32> = PendingTable::new();
    let (id, line) =
        prepare_request(&mut table, 1u32, s("initialize"), Some(params)).expect("fresh table");
    assert_eq!(id.len(), 36);
    assert!(line.starts_with("{\"jsonrpc\":\"2.0\",\"id\":\""));
    assert!(line.contains("\"method\":\"initialize\""));
    assert!(line.contains("\"protocolVersion\":\"2024-11-05\""));

    // the server's reply
    let resp = client
        .apply_initialize_result(&parse(INIT_RESULT))
        .expect("well-formed initialize result");
    assert_eq!(resp.protocol_version, s("2024-11-05"));
    assert_eq!(resp.server_info.name, s("s"));
    assert_eq!(resp.server_info.version, s("0.1"));
    assert!(resp.capabilities.tools.is_some());
    assert!(resp.capabilities.tools.unwrap().list);
    assert!(resp.capabilities.prompts.is_none());

    // the follow-up notification comes from the session itself, only now
    // that the initialize response is recorded; then the session is live
    assert_eq!(client.initialized_notification(), "{\"jsonrpc\":\"2.0\",\"method\":\"initialized\"}");
    assert_eq!(notification_line(s("initialized"), None), "{\"jsonrpc\":\"2.0\",\"method\":\"initialized\"}");
    client.initialized_sent();
    assert_eq!(client.get_state(), ClientState::Connected);
}

#[test]
fn tools_disabled_returns_empty_without_wire_traffic() {
    let mut client = ProperMcpClient::new();
    client.connect_started();
    client.apply_initialize_result(&parse(INIT_RESULT_NO_TOOLS)).expect("parses");
    client.initialized_sent();
    assert_eq!(client.list_tools_action(), ListToolsAction::Empty);
    assert_eq!(client.get_tools(), vec![]);
}

#[test]
fn tool_listing_caches_snapshot() {
    let mut client = ProperMcpClient::new();
    client.connect_started();
    client.apply_initialize_result(&parse(INIT_RESULT)).expect("parses");
    client.initialized_sent();
    assert_eq!(client.list_tools_action(), ListToolsAction::Request);

    let listing = parse(
        "{\"tools\":[{\"name\":\"echo\",\"description\":\"e\",\"inputSchema\":{\"type\":\"object\"}}]}",
    );
    let tools = client.apply_tools_result(&listing).expect("well-formed listing");
    assert_eq!(tools.len(), 1);
    assert_eq!(tools[0].name, s("echo"));
    assert_eq!(tools[0].description, Some(s("e")));
    assert_eq!(tools[0].input_schema, Json::Obj(vec![(s("type"), Json::Str(s("object")))]));

    let cached = client.get_tools();
    assert_eq!(cached.len(), 1);
    assert_eq!(cached[0].name, s("echo"));
}

#[test]
fn tool_call_error_is_surfaced_verbatim() {
    let mut table: PendingTable<u32> = PendingTable::new();
    let params = call_tool_params(s("x"), None);
    let (id, line) = prepare_request(&mut table, 9u32, s("tools/call"), Some(params)).expect("fresh");
    assert!(line.contains("\"params\":{\"name\":\"x\"}"));

    let reply = format!(
        "{{\"jsonrpc\":\"2.0\",\"id\":\"{}\",\"error\":{{\"code\":-32001,\"message\":\"boom\"}}}}",
        id
    );
    match mcp_client::transport::route_line(&mut table, &reply) {
        Routed::Completed { id: done, slot, outcome } => {
            assert_eq!(done, id);
            assert_eq!(slot, 9u32);
            assert_eq!(outcome, Err(RpcError { code: -32001, message: s("boom"), data: None }));
        }
        other => panic!("expected a completion, got {:?}", other),
    }
    assert_eq!(table.len(), 0);
}

#[test]
fn timeout_cancels_and_disconnect_succeeds() {
    let mut table: PendingTable<u32> = PendingTable::new();
    let (id, _line) = prepare_request(&mut table, 5u32, s("tools/list"), None).expect("fresh");
    assert_eq!(table.len(), 1);

    // the deadline passes: the entry is removed and the caller told Timeout
    assert_eq!(table.take(&id), Some(5u32));
    assert_eq!(table.len(), 0);

    // a late response is dropped without touching the table
    let late = format!("{{\"jsonrpc\":\"2.0\",\"id\":\"{}\",\"result\":1}}", id);
    match mcp_client::transport::route_line(&mut table, &late) {
        Routed::UnknownId => {}
        other => panic!("expected the late response to be dropped, got {:?}", other),
    }
    assert_eq!(table.len(), 0);

    let mut client = ProperMcpClient::new();
    client.connect_started();
    assert_eq!(client.disconnect(), Ok(()));
    assert_eq!(client.get_state(), ClientState::Disconnected);
}

#[test]
fn noise_does_not_disturb_pending_requests() {
    let mut table: PendingTable<u32> = PendingTable::new();
    let (id, _line) = prepare_request(&mut table, 3u32, s("tools/list"), None).expect("fresh");
    for i in 0..10_000u32 {
        let noise = format!("server log line {}", i);
        match mcp_client::transport::route_line(&mut table, &noise) {
            Routed::Malformed => {}
            other => panic!("expected noise to be dropped, got {:?}", other),
        }
    }
    match mcp_client::transport::route_line(&mut table, "") {
        Routed::Skipped => {}
        other => panic!("expected a blank line to be skipped, got {:?}", other),
    }
    assert_eq!(table.len(), 1);
    let good = format!("{{\"jsonrpc\":\"2.0\",\"id\":\"{}\",\"result\":null}}", id);
    match mcp_client::transport::route_line(&mut table, &good) {
        Routed::Completed { slot, outcome, .. } => {
            assert_eq!(slot, 3u32);
            assert_eq!(outcome, Ok(Json::Null));
        }
        other => panic!("expected a completion, got {:?}", other),
    }
}

#[test]
fn server_initiated_requests_are_discarded() {
    let mut table: PendingTable<u32> = PendingTable::new();
    let (_, _) = prepare_request(&mut table, 4u32, s("tools/list"), None).expect("fresh");
    let line = "{\"jsonrpc\":\"2.0\",\"id\":\"srv-1\",\"method\":\"sampling/createMessage\"}";
    match mcp_client::transport::route_line(&mut table, line) {
        Routed::ServerRequest { method } => assert_eq!(method, s("sampling/createMessage")),
        other => panic!("expected the server request to be set aside, got {:?}", other),
    }
    assert_eq!(table.len(), 1);
}

#[test]
fn fractional_numbers_in_payloads_pass_through() {
    // a schema with a fractional constraint must survive listing untouched
    let mut client = ProperMcpClient::new();
    client.connect_started();
    client.apply_initialize_result(&parse(INIT_RESULT)).expect("parses");
    client.initialized_sent();
    let listing = parse(
        "{\"tools\":[{\"name\":\"scale\",\"inputSchema\":{\"type\":\"number\",\"multipleOf\":0.5}}]}",
    );
    let tools = client.apply_tools_result(&listing).expect("fractional schema must parse");
    assert_eq!(tools.len(), 1);
    assert_eq!(
        tools[0].input_schema,
        Json::Obj(vec![
            (s("type"), Json::Str(s("number"))),
            (s("multipleOf"), Json::Num(s("0.5"))),
        ])
    );

    // a float in a tool result is carried through verbatim
    let outcome = parse(
        "{\"content\":[{\"type\":\"measurement\",\"value\":2.75}]}",
    );
    let result = parse_call_tool_result(&outcome).expect("float content must parse");
    match &result.content[0] {
        ContentEntry::Other { kind, value } => {
            assert_eq!(kind, "measurement");
            assert_eq!(
                value,
                &Json::Obj(vec![
                    (s("type"), Json::Str(s("measurement"))),
                    (s("value"), Json::Num(s("2.75"))),
                ])
            );
        }
        other => panic!("expected the entry kept whole, got {:?}", other),
    }

    // and a host can hand a float argument to a tool call
    let params = call_tool_params(s("scale"), Some(Json::Obj(vec![(s("factor"), Json::Num(s("0.5")))])));
    let rendered: String = mcp_client::json::to_chars(&params).iter().collect();
    assert_eq!(rendered, "{\"name\":\"scale\",\"arguments\":{\"factor\":0.5}}");
}

#[test]
fn invalid_response_fails_its_caller_as_protocol_error() {
    let mut table: PendingTable<u32> = PendingTable::new();
    let (id, _line) = prepare_request(&mut table, 8u32, s("tools/list"), None).expect("fresh");

    // response-shaped, but with neither result nor error: the caller is
    // told instead of being left to time out
    let bad = format!("{{\"jsonrpc\":\"2.0\",\"id\":\"{}\"}}", id);
    match mcp_client::transport::route_line(&mut table, &bad) {
        Routed::Invalid { id: done, slot } => {
            assert_eq!(done, id);
            assert_eq!(slot, 8u32);
        }
        other => panic!("expected the bad response surfaced, got {:?}", other),
    }
    assert_eq!(table.len(), 0);

    // the same shape with no outstanding request is dropped
    match mcp_client::transport::route_line(&mut table, &bad) {
        Routed::UnknownId => {}
        other => panic!("expected the alien bad response dropped, got {:?}", other),
    }
}

#[test]
fn disconnect_is_idempotent_and_clears_caches() {
    let mut client = ProperMcpClient::new();
    client.connect_started();
    client.apply_initialize_result(&parse(INIT_RESULT)).expect("parses");
    client.initialized_sent();
    client
        .apply_tools_result(&parse(
            "{\"tools\":[{\"name\":\"echo\",\"inputSchema\":{}}]}",
        ))
        .expect("parses");
    assert_eq!(client.get_tools().len(), 1);

    assert_eq!(client.disconnect(), Ok(()));
    assert_eq!(client.get_state(), ClientState::Disconnected);
    assert_eq!(client.get_tools(), vec![]);

    assert_eq!(client.disconnect(), Ok(()));
    assert_eq!(client.get_state(), ClientState::Disconnected);
    assert_eq!(client.get_tools(), vec![]);
}

#[test]
fn operations_require_a_connected_session() {
    let client = ProperMcpClient::new();
    assert_eq!(client.list_tools_action(), ListToolsAction::Refuse);
    assert_eq!(client.require_connected(), Err(McpClientError::NotConnected));

    let mut connecting = ProperMcpClient::new();
    connecting.connect_started();
    assert_eq!(connecting.list_tools_action(), ListToolsAction::Refuse);
    assert_eq!(connecting.require_connected(), Err(McpClientError::NotConnected));
}

#[test]
fn malformed_payloads_are_protocol_errors() {
    let mut client = ProperMcpClient::new();
    client.connect_started();
    match client.apply_initialize_result(&parse("{\"protocolVersion\":\"2024-11-05\"}")) {
        Err(McpClientError::Protocol(_)) => {}
        other => panic!("expected a protocol error, got {:?}", other),
    }
    assert_eq!(client.get_state(), ClientState::Connecting);

    client.apply_initialize_result(&parse(INIT_RESULT)).expect("parses");
    client.initialized_sent();
    match client.apply_tools_result(&parse("{\"tools\":[{\"name\":7}]}")) {
        Err(McpClientError::Protocol(_)) => {}
        other => panic!("expected a protocol error, got {:?}", other),
    }
    assert_eq!(client.get_tools(), vec![]);
}

#[test]
fn connect_failure_keeps_the_reason() {
    let mut client = ProperMcpClient::new();
    client.connect_started();
    client.connect_failed(s("spawn failed: no such file"));
    assert_eq!(client.get_state(), ClientState::Error(s("spawn failed: no such file")));
    let status = connection_status_response(&client.get_state());
    assert_eq!(status.status, s("error"));
    assert_eq!(status.message, Some(s("spawn failed: no such file")));
}

#[test]
fn status_words_cover_every_state() {
    let st = connection_status_response(&ClientState::Disconnected);
    assert_eq!((st.status, st.message), (s("disconnected"), None));
    let st = connection_status_response(&ClientState::Connecting);
    assert_eq!((st.status, st.message), (s("connecting"), None));
    let st = connection_status_response(&ClientState::Connected);
    assert_eq!((st.status, st.message), (s("connected"), None));
}

#[test]
fn call_tool_content_is_parsed_and_preserved() {
    let payload = parse(
        "{\"content\":[{\"type\":\"text\",\"text\":\"hi\"},{\"type\":\"image\",\"data\":\"QUJD\",\"mimeType\":\"image/png\"},{\"type\":\"audio\",\"clip\":1}]}",
    );
    let result = parse_call_tool_result(&payload).expect("well-formed content");
    assert_eq!(result.content.len(), 3);
    assert_eq!(result.content[0], ContentEntry::Text { text: s("hi") });
    assert_eq!(
        result.content[1],
        ContentEntry::Image { data: s("QUJD"), mime_type: s("image/png") }
    );
    match &result.content[2] {
        ContentEntry::Other { kind, value: _ } => assert_eq!(kind, "audio"),
        other => panic!("expected the unknown kind to be preserved, got {:?}", other),
    }

    let host = to_host_response(result);
    assert_eq!(host.is_error, None);
    assert_eq!(host.content.len(), 3);
    assert_eq!(host.content[0].content_type, s("text"));
    assert_eq!(host.content[0].text, Some(s("hi")));
    assert_eq!(host.content[1].content_type, s("image"));
    assert_eq!(host.content[1].text, Some(s("QUJD")));
    assert_eq!(host.content[2].content_type, s("audio"));
    assert_eq!(host.content[2].text, None);
}

#[test]
fn duplicate_correlation_ids_are_rejected() {
    let mut table: PendingTable<u32> = PendingTable::new();
    assert_eq!(table.register(s("a"), 1u32), Ok(()));
    assert_eq!(table.register(s("a"), 2u32), Err(2u32));
    assert_eq!(table.len(), 1);
    assert_eq!(table.take("a"), Some(1u32));
    assert_eq!(table.take("a"), None);
}

#[test]
fn drain_hands_every_slot_back() {
    let mut table: PendingTable<u32> = PendingTable::new();
    assert_eq!(table.register(s("a"), 1u32), Ok(()));
    assert_eq!(table.register(s("b"), 2u32), Ok(()));
    assert_eq!(table.register(s("c"), 3u32), Ok(()));
    let slots = table.drain();
    assert_eq!(slots, vec![1u32, 2u32, 3u32]);
    assert_eq!(table.len(), 0);
}

#[test]
fn call_tool_params_omit_absent_arguments() {
    let with_args = call_tool_params(s("t"), Some(Json::Int(1)));
    let rendered: String = mcp_client::json::to_chars(&with_args).iter().collect();
    assert_eq!(rendered, "{\"name\":\"t\",\"arguments\":1}");
    let without = call_tool_params(s("t"), None);
    let rendered: String = mcp_client::json::to_chars(&without).iter().collect();
    assert_eq!(rendered, "{\"name\":\"t\"}");
}

#[test]
fn request_ids_are_fresh_uuids() {
    let mut table: PendingTable<u32> = PendingTable::new();
    let (id1, _) = prepare_request(&mut table, 1u32, s("m"), None).expect("fresh");
    let (id2, _) = prepare_request(&mut table, 2u32, s("m"), None).expect("fresh");
    assert_eq!(id1.len(), 36);
    assert_eq!(id2.len(), 36);
    assert_ne!(id1, id2);
    assert_eq!(table.len(), 2);
}

#[test]
fn plain_result_payloads_encode_and_reject() {
    // a plain result encodes; one that is not an object is rejected by the
    // tool-call reader; an empty content list maps to an empty host response
    let m = Message::Response { id: RpcId::S(s("z")), result: Ok(Json::Int(2)) };
    let line = mcp_client::rpc::encode_message(m);
    assert_eq!(line, "{\"jsonrpc\":\"2.0\",\"id\":\"z\",\"result\":2}");
    let outcome = parse_call_tool_result(&Json::Int(2));
    assert!(outcome.is_none());
    let c = CallToolResult { content: vec![] };
    assert_eq!(to_host_response(c).content.len(), 0);
}
