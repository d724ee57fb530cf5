use erlangrt::agent_rt::config::McpServerEntry;
use erlangrt::agent_rt::mcp_client::{
    http_error, session_after, timeout_secs_from_ms, tool_output, CachedTool, Connection,
    McpClientError, McpClientManager, McpClientSession, OfferedTool,
};
use erlangrt::agent_rt::types::{AgentPid, PidSource};
use erlangrt::json::Json;

fn entry(name: &str, transport: &str) -> McpServerEntry {
    McpServerEntry {
        name: name.to_string(),
        transport: transport.to_string(),
        command: None,
        args: None,
        env: None,
        url: None,
        auth_token_env: None,
        timeout_ms: None,
    }
}

#[test]
fn test_parse_namespaced_name_valid() {
    let result = McpClientSession::parse_namespaced_name("github__create_issue");
    assert!(result.is_ok());
    let (server, tool) = result.unwrap();
    assert_eq!(server, "github");
    assert_eq!(tool, "create_issue");
}

#[test]
fn test_parse_namespaced_name_multiple_underscores() {
    let result = McpClientSession::parse_namespaced_name("my_server__some_tool");
    assert!(result.is_ok());
    let (server, tool) = result.unwrap();
    assert_eq!(server, "my_server");
    assert_eq!(tool, "some_tool");
}

#[test]
fn test_parse_namespaced_name_no_separator() {
    let result = McpClientSession::parse_namespaced_name("tool_without_namespace");
    assert!(result.is_err());
}

#[test]
fn test_parse_namespaced_name_empty_server() {
    let result = McpClientSession::parse_namespaced_name("__tool");
    assert!(result.is_err());
}

#[test]
fn test_parse_namespaced_name_empty_tool() {
    let result = McpClientSession::parse_namespaced_name("server__");
    assert!(result.is_err());
}

#[test]
fn test_mcp_client_error_display() {
    let err = McpClientError::ServerNotFound("test".to_string());
    assert_eq!(err.text(), "MCP server 'test' not found");

    let err = McpClientError::Transport("connection failed".to_string());
    assert_eq!(err.text(), "MCP transport error: connection failed");

    let err = McpClientError::NotInitialized;
    assert_eq!(err.text(), "MCP session not initialized");
}

#[test]
fn test_mcp_client_manager_empty() {
    let manager = McpClientManager::empty();
    assert!(!manager.is_enabled());
    assert!(manager.server_names().is_empty());
}

#[test]
fn test_mcp_client_manager_with_servers() {
    let mut config = entry("github", "stdio");
    config.command = Some("npx".to_string());
    config.args = Some(
        vec!["-y", "@modelcontextprotocol/server-github"].into_iter().map(String::from).collect(),
    );
    let manager = McpClientManager::new(vec![config]);
    assert!(manager.is_enabled());
    assert_eq!(manager.server_names(), vec!["github"]);
}

#[test]
fn test_session_lifecycle() {
    let mut manager = McpClientManager::empty();
    let pid = AgentPid::new(&mut PidSource::new());

    // Should fail because MCP is not configured
    let result = manager.get_or_create_session(pid);
    assert!(result.is_err());
}

#[test]
fn test_timeout_secs_from_ms_rounds_up() {
    assert_eq!(timeout_secs_from_ms(None), 30);
    assert_eq!(timeout_secs_from_ms(Some(0)), 1);
    assert_eq!(timeout_secs_from_ms(Some(1)), 1);
    assert_eq!(timeout_secs_from_ms(Some(999)), 1);
    assert_eq!(timeout_secs_from_ms(Some(1000)), 1);
    assert_eq!(timeout_secs_from_ms(Some(1001)), 2);
}

#[test]
fn test_http_auth_env_missing_fails_fast() {
    let mut cfg = entry("remote", "http");
    cfg.url = Some("http://127.0.0.1:9/mcp".to_string());
    cfg.auth_token_env = Some("ZEPTO_TEST_MISSING_TOKEN".to_string());
    cfg.timeout_ms = Some(1000);

    match McpClientSession::connect_to_server(&cfg, None) {
        Err(McpClientError::Config(msg)) => {
            assert!(msg.contains("Missing auth token env var"));
        }
        _ => panic!("Expected Config error"),
    }
}

#[test]
fn ways_to_reach_a_server() {
    let mut cfg = entry("remote", "http");
    cfg.url = Some("http://host/mcp".to_string());
    cfg.auth_token_env = Some("TOKEN".to_string());
    match McpClientSession::connect_to_server(&cfg, Some("abc")).unwrap() {
        Connection::Http { url, timeout_secs, bearer } => {
            assert_eq!(url, "http://host/mcp");
            assert_eq!(timeout_secs, 30);
            assert!(bearer.unwrap().contains("abc"));
        }
        _ => panic!("Expected Http"),
    }
    let mut cfg = entry("local", "stdio");
    assert!(matches!(
        McpClientSession::connect_to_server(&cfg, None),
        Err(McpClientError::Config(_))
    ));
    cfg.command = Some("run".to_string());
    match McpClientSession::connect_to_server(&cfg, None).unwrap() {
        Connection::Stdio { command, args, env, .. } => {
            assert_eq!(command, "run");
            assert!(args.is_empty());
            assert!(env.is_empty());
        }
        _ => panic!("Expected Stdio"),
    }
    assert!(matches!(
        McpClientSession::connect_to_server(&entry("x", "smoke"), None),
        Err(McpClientError::Config(_))
    ));
}

#[test]
fn names_of_tools_lead_back() {
    let mut found: Vec<CachedTool> = Vec::new();
    let mut clients: Vec<String> = Vec::new();
    McpClientSession::add_server(
        &mut found,
        &mut clients,
        "github",
        vec![OfferedTool {
            name: "create_issue".to_string(),
            description: None,
            input_schema: Json::parse("{}").unwrap(),
        }],
    );
    let mut session = McpClientSession::new(AgentPid::from_raw(7));
    assert!(matches!(session.get_cached_tools(), Err(McpClientError::NotInitialized)));
    session.finish_initialize(found, clients);
    let tools = session.get_cached_tools().unwrap();
    assert_eq!(tools.len(), 1);
    let name = tools[0].tool_name();
    assert!(McpClientSession::is_mcp_tool_name(name));
    assert_eq!(
        McpClientSession::parse_tool_name(name),
        Some(("github".to_string(), "create_issue".to_string()))
    );
    assert_eq!(
        session.route_call("github__create_issue").unwrap(),
        ("github".to_string(), "create_issue".to_string())
    );
    assert!(matches!(
        session.route_call("gitlab__create_issue"),
        Err(McpClientError::ServerNotFound(_))
    ));
    session.disconnect();
    assert!(session.get_cached_tools().is_err());
}

#[test]
fn answers_of_servers() {
    let texts = vec!["a".to_string(), "b".to_string()];
    assert_eq!(tool_output(&texts, false), "a\nb");
    assert!(tool_output(&texts, true).contains("a\nb"));
    assert_eq!(session_after(Some("old".to_string()), None), Some("old".to_string()));
    assert_eq!(session_after(Some("old".to_string()), Some("new")), Some("new".to_string()));
    assert!(http_error("404 Not Found", "gone").contains("404"));
}

#[test]
fn sessions_are_kept_for_each_agent() {
    let mut manager = McpClientManager::new(vec![entry("s", "stdio")]);
    let pid = AgentPid::from_raw(3);
    assert!(manager.get_or_create_session(pid).is_ok());
    assert!(manager.get_session(pid).is_some());
    assert!(manager.get_session(AgentPid::from_raw(4)).is_none());
    assert!(manager.close_session(pid).is_some());
    assert!(manager.get_session(pid).is_none());
}
