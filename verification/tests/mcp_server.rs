use erlangrt::agent_rt::agent_worker::AgentWorkerBehavior;
use erlangrt::agent_rt::mcp_jsonrpc::{JsonRpcRequest, JsonRpcResponse};
use erlangrt::agent_rt::mcp_server::{
    generate_uuid, McpProtocolHandler, McpServerState, McpSession, RuntimeHandle, UuidSource,
    SUPPORTED_PROTOCOL_VERSION,
};
use erlangrt::agent_rt::mcp_stdio::McpStdioListener;
use erlangrt::agent_rt::mcp_types::{
    error_codes, Implementation, InitializeParams, ListProcessesResult, ProcessInfo,
    ToolsListParams,
};
use erlangrt::agent_rt::observability::RuntimeMetrics;
use erlangrt::agent_rt::scheduler::AgentScheduler;
use erlangrt::agent_rt::types::Message;
use erlangrt::json::Json;

const SECOND: u128 = 1_000_000_000;
const MILLI: u128 = 1_000_000;

fn json(text: &str) -> Json {
    Json::parse(text).unwrap()
}

fn handle() -> RuntimeHandle<AgentWorkerBehavior> {
    RuntimeHandle::new(AgentScheduler::new(), RuntimeMetrics::new(0))
}

fn create_test_state() -> McpServerState<AgentWorkerBehavior> {
    McpServerState::new(None, 3600 * SECOND, handle())
}

fn with_session() -> (McpProtocolHandler<AgentWorkerBehavior>, String) {
    let mut state = create_test_state();
    let session_id = state.create_session(0);
    let mut session = McpSession::new(&session_id, 0);
    session.mark_initialized();
    state.update_session(session, 0);
    (McpProtocolHandler::new(state), session_id)
}

#[test]
fn test_create_session() {
    let mut state = create_test_state();
    let session_id = state.create_session(0);
    assert!(!session_id.is_empty());

    let session = state.get_session(&session_id, 0);
    assert!(session.is_some());
}

#[test]
fn test_session_expiration() {
    let mut state = McpServerState::new(None, 10 * MILLI, handle());

    let session_id = state.create_session(0);

    let session = state.get_session(&session_id, 50 * MILLI);
    assert!(session.is_none()); // Should be expired and removed
}

#[test]
fn test_verify_auth_no_token_required() {
    let state = create_test_state();
    assert!(state.verify_auth(None));
    assert!(state.verify_auth(Some("any-token")));
}

#[test]
fn test_verify_auth_with_token() {
    let state = McpServerState::new(Some("secret-token".to_string()), 3600 * SECOND, handle());

    assert!(!state.verify_auth(None));
    assert!(!state.verify_auth(Some("wrong-token")));
    assert!(state.verify_auth(Some("secret-token")));
}

#[test]
fn test_handle_initialize() {
    let mut handler = McpProtocolHandler::new(create_test_state());

    let params = InitializeParams {
        protocol_version: SUPPORTED_PROTOCOL_VERSION.to_string(),
        capabilities: None,
        client_info: Some(Implementation {
            name: "test".to_string(),
            version: "0.1.0".to_string(),
        }),
    };
    let request = JsonRpcRequest::new(Some(json("1")), "initialize").with_params(params.to_json());

    let response = handler.handle_request(request, None, 0);
    assert!(response.result.is_some());
    assert!(response.error.is_none());
}

#[test]
fn test_handle_initialize_wrong_version() {
    let mut handler = McpProtocolHandler::new(create_test_state());

    let params = InitializeParams {
        protocol_version: "1.0.0".to_string(),
        capabilities: None,
        client_info: None,
    };
    let request = JsonRpcRequest::new(Some(json("1")), "initialize").with_params(params.to_json());

    let response = handler.handle_request(request, None, 0);
    assert!(response.result.is_none());
    assert!(response.error.is_some());
}

#[test]
fn test_handle_tools_list_requires_session() {
    let mut handler = McpProtocolHandler::new(create_test_state());

    let request = JsonRpcRequest::new(Some(json("1")), "tools/list")
        .with_params(ToolsListParams::default().to_json());

    let response = handler.handle_request(request, None, 0);
    assert!(response.result.is_none());
    assert!(response.error.is_some());
    let error = response.error.unwrap();
    assert_eq!(error.code, error_codes::SESSION_NOT_INITIALIZED);
}

#[test]
fn test_handle_tools_list_with_session() {
    let (mut handler, session_id) = with_session();

    let request = JsonRpcRequest::new(Some(json("1")), "tools/list")
        .with_params(ToolsListParams::default().to_json());

    let response = handler.handle_request(request, Some(&session_id), 0);
    assert!(response.result.is_some());
    assert!(response.error.is_none());
}

#[test]
fn test_handle_ping() {
    let (mut handler, session_id) = with_session();

    let request = JsonRpcRequest::new(Some(json("1")), "ping");

    let response = handler.handle_request(request, Some(&session_id), 0);
    assert!(response.result.is_some());
    assert!(response.error.is_none());
}

#[test]
fn test_handle_unknown_method() {
    let (mut handler, session_id) = with_session();

    let request = JsonRpcRequest::new(Some(json("1")), "unknown/method");

    let response = handler.handle_request(request, Some(&session_id), 0);
    assert!(response.result.is_none());
    assert!(response.error.is_some());
    let error = response.error.unwrap();
    assert_eq!(error.code, error_codes::METHOD_NOT_FOUND);
}

#[test]
fn test_get_available_tools() {
    let state = create_test_state();
    let tools = state.get_available_tools();
    assert_eq!(tools.len(), 6);

    let tool_names: Vec<&str> = tools.iter().map(|t| t.name.as_str()).collect();
    assert!(tool_names.contains(&"spawn_orchestration"));
    assert!(tool_names.contains(&"list_processes"));
    assert!(tool_names.contains(&"get_metrics"));
}

fn call(
    handler: &mut McpProtocolHandler<AgentWorkerBehavior>,
    session: &str,
    params: &str,
) -> JsonRpcResponse {
    let request = JsonRpcRequest::new(Some(json("9")), "tools/call").with_params(json(params));
    handler.handle_request(request, Some(session), 0)
}

#[test]
fn tools_are_called() {
    let (mut handler, session) = with_session();
    let behavior = AgentWorkerBehavior::new(
        "w".to_string(),
        "p".to_string(),
        None,
        None,
        vec![],
        None,
        None,
    );
    let pid = handler
        .state
        .runtime_handle
        .scheduler
        .registry
        .spawn(behavior, Json::Null)
        .unwrap()
        .raw();
    assert_eq!(handler.state.runtime_handle.process_count(), 1);

    let r = call(&mut handler, &session, r#"{"name": "list_processes"}"#);
    assert!(r.result.unwrap().to_text().contains(&pid.to_string()));

    let args = format!(r#"{{"name": "send_message", "arguments": {{"pid": "{}", "message": "hi"}}}}"#, pid);
    assert!(call(&mut handler, &session, &args).error.is_none());
    let procs = &mut handler.state.runtime_handle.scheduler.registry;
    let proc = procs.lookup_mut(&erlangrt::agent_rt::types::AgentPid::from_raw(pid)).unwrap();
    assert!(matches!(proc.next_message(), Some(Message::Json(v)) if v == json("\"hi\"")));

    let args = format!(r#"{{"name": "cancel_process", "arguments": {{"pid": "{}"}}}}"#, pid);
    assert!(call(&mut handler, &session, &args).error.is_none());
    assert_eq!(handler.state.runtime_handle.process_count(), 0);

    assert!(call(&mut handler, &session, r#"{"name": "get_metrics"}"#).result.is_some());
    let r = call(&mut handler, &session, r#"{"name": "no_such_tool"}"#);
    assert_eq!(r.error.unwrap().code, error_codes::TOOL_NOT_FOUND);
}

#[test]
fn session_names_differ() {
    let mut source = UuidSource::new();
    let a = generate_uuid(&mut source);
    let b = generate_uuid(&mut source);
    assert_ne!(a, b);
    assert_eq!(a.len(), 36);
}

#[test]
fn latest_session_is_found() {
    let mut state = create_test_state();
    assert!(state.most_recent_session_id().is_none());
    let a = state.create_session(1);
    let b = state.create_session(2);
    assert_eq!(state.most_recent_session_id(), Some(b.clone()));
    assert!(state.remove_session(&b));
    assert!(!state.remove_session(&b));
    assert_eq!(state.most_recent_session_id(), Some(a));
}

#[test]
fn test_stdio_listener_creation() {
    let handler = McpProtocolHandler::new(create_test_state());
    let listener = McpStdioListener::new(handler);
    // Just verify it can be created
    drop(listener);
}

#[test]
fn test_jsonrpc_request_parsing() {
    // Create a simple request
    let params = InitializeParams {
        protocol_version: SUPPORTED_PROTOCOL_VERSION.to_string(),
        capabilities: None,
        client_info: None,
    };
    let request = JsonRpcRequest::new(Some(json("1")), "initialize").with_params(params.to_json());

    let text = request.to_json().to_text();
    assert!(!text.is_empty());

    // Parse it back
    let parsed = JsonRpcRequest::from_json(&json(&text)).unwrap();
    assert_eq!(parsed.method, "initialize");
}

#[test]
fn test_jsonrpc_response_serialization() {
    let response = JsonRpcResponse::success(Some(json("1")), json(r#"{"result": "ok"}"#));

    let text = response.to_json().to_text();
    assert!(text.contains("\"jsonrpc\":\"2.0\""));
    assert!(text.contains("\"result\""));
}

#[test]
fn test_error_response_formatting() {
    let response =
        JsonRpcResponse::error(Some(json("1")), error_codes::PARSE_ERROR, "Test error");

    let text = response.to_json().to_text();
    assert!(text.contains("\"code\":-32700"));
    assert!(text.contains("Test error"));
}

#[test]
fn lines_are_answered() {
    let mut listener = McpStdioListener::new(McpProtocolHandler::new(create_test_state()));
    assert_eq!(listener.handle_line("   ", 0), None);
    let bad = listener.handle_line("not json", 0).unwrap();
    assert!(bad.contains("-32700"));
    let line = r#"{"jsonrpc":"2.0","id":1,"method":"initialize","params":{"protocol_version":"2024-11-05"}}"#;
    let good = listener.handle_line(line, 0).unwrap();
    assert!(good.contains("\"result\""));
    let ping = listener.handle_line(r#"{"jsonrpc":"2.0","id":2,"method":"ping"}"#, 1).unwrap();
    assert!(ping.contains("\"id\":2"));
}

#[test]
fn parameters_may_be_written_as_lists() {
    let mut handler = McpProtocolHandler::new(create_test_state());
    let ask = |params: &str| JsonRpcRequest::new(Some(json("1")), "initialize").with_params(json(params));
    let ok = handler.handle_request(ask(r#"["2024-11-05", null, null]"#), None, 0);
    assert!(ok.error.is_none());
    let named = handler.handle_request(ask(r#"["2024-11-05", {}, ["c", "1"]]"#), None, 0);
    assert!(named.error.is_none());
    let short = handler.handle_request(ask(r#"["2024-11-05", null]"#), None, 0);
    assert_eq!(short.error.unwrap().code, error_codes::INVALID_PARAMS);
    let half = handler.handle_request(ask(r#"["2024-11-05", null, ["c"]]"#), None, 0);
    assert_eq!(half.error.unwrap().code, error_codes::INVALID_PARAMS);
    let request = JsonRpcRequest::from_json(&json(r#"["2.0", 3, "ping", null]"#)).unwrap();
    assert_eq!(request.method, "ping");
    assert!(JsonRpcRequest::from_json(&json(r#"["2.0", 3, "ping"]"#)).is_none());
    assert!(ToolsListParams::from_json(&json(r#"[null]"#)).is_some());
    assert!(ToolsListParams::from_json(&json("[]")).is_none());
}

#[test]
fn answers_have_their_members_in_order() {
    let mut listener = McpStdioListener::new(McpProtocolHandler::new(create_test_state()));
    let line = r#"{"jsonrpc":"2.0","id":1,"method":"initialize","params":{"protocol_version":"2024-11-05"}}"#;
    let answer = listener.handle_line(line, 0).unwrap();
    assert!(answer.starts_with(r#"{"jsonrpc":"2.0","id":1,"result":{"#));
    let list = ListProcessesResult {
        processes: vec![
            ProcessInfo {
                pid: 2,
                status: "s".to_string(),
                priority: "p".to_string(),
                mailbox_depth: 3,
            },
            ProcessInfo {
                pid: 4,
                status: "t".to_string(),
                priority: "q".to_string(),
                mailbox_depth: 0,
            },
        ],
    };
    assert_eq!(
        list.to_text(),
        concat_lines(&[
            r#"{"processes":[{"pid":2,"status":"s","priority":"p","mailbox_depth":3},"#,
            r#"{"pid":4,"status":"t","priority":"q","mailbox_depth":0}]}"#,
        ])
    );
    assert_eq!(json(&list.to_text()), list.to_json());
    assert_eq!(ListProcessesResult { processes: vec![] }.to_text(), r#"{"processes":[]}"#);
}

fn concat_lines(parts: &[&str]) -> String {
    parts.join("")
}

#[test]
fn servers_with_sources_of_their_own_name_sessions_differently() {
    let mut a = McpServerState::with_uuids(None, SECOND, handle(), UuidSource { next: 1 });
    let mut b = McpServerState::with_uuids(None, SECOND, handle(), UuidSource { next: 1 << 40 });
    assert_ne!(a.create_session(0), b.create_session(0));
}

#[test]
fn a_session_that_is_used_stays_alive() {
    let mut s = McpSession::new("s", 10);
    s.mark_initialized();
    s.touch(50);
    assert_eq!((s.id.as_str(), s.created_at, s.last_active, s.initialized), ("s", 10, 50, true));
    assert!(!s.is_expired(5, 55));
    assert!(s.is_expired(5, 56));
}
