use erlangrt::agent_rt::mcp_types::{
    build_tools_list, error_codes, InitializeParams, InitializeResult, Tool, ToolContent,
    ToolInfo, ToolsCallParams, ToolsListParams, MCP_PROTOCOL_VERSION,
};
use erlangrt::json::Json;

fn json(text: &str) -> Json {
    Json::parse(text).unwrap()
}

#[test]
fn test_initialize_result() {
    let result = InitializeResult::default_result();
    assert_eq!(result.protocol_version, MCP_PROTOCOL_VERSION);
    assert_eq!(result.server_info.name, "zeptoclaw");
}

#[test]
fn test_tool_creation() {
    let tool = Tool::new("test_tool", "A test tool", json("{}"));
    assert_eq!(tool.name, "test_tool");
    assert_eq!(tool.description, Some("A test tool".to_string()));
}

#[test]
fn test_tools_list() {
    let tools = build_tools_list();
    assert_eq!(tools.len(), 6);

    let names: Vec<&str> = tools.iter().map(|t| t.name.as_str()).collect();
    assert!(names.contains(&"spawn_orchestration"));
    assert!(names.contains(&"get_orchestration_status"));
    assert!(names.contains(&"list_processes"));
    assert!(names.contains(&"send_message"));
    assert!(names.contains(&"get_metrics"));
    assert!(names.contains(&"cancel_process"));
}

#[test]
fn test_tool_output_content() {
    let content = ToolContent::text("Hello, world!");
    match content {
        ToolContent::Text { text } => assert_eq!(text, "Hello, world!"),
        _ => panic!("Expected Text content"),
    }
}

#[test]
fn test_initialize_params_deserialization() {
    let text = r#"{
            "protocol_version": "2024-11-05",
            "capabilities": {},
            "client_info": {
                "name": "test-client",
                "version": "1.0.0"
            }
        }"#;
    let params = InitializeParams::from_json(&json(text)).unwrap();
    assert_eq!(params.protocol_version, "2024-11-05");
    assert!(params.client_info.is_some());
}

#[test]
fn test_tools_call_params_deserialization() {
    let text = r#"{
            "name": "test_tool",
            "arguments": {"key": "value"}
        }"#;
    let params = ToolsCallParams::from_json(&json(text)).unwrap();
    assert_eq!(params.name, "test_tool");
    assert!(params.arguments.is_some());
}

#[test]
fn test_error_codes() {
    assert_eq!(error_codes::SESSION_NOT_INITIALIZED, -32001);
    assert_eq!(error_codes::PARSE_ERROR, -32700);
    assert_eq!(error_codes::METHOD_NOT_FOUND, -32601);
}

#[test]
fn parameters_of_the_wrong_shape_are_refused() {
    assert!(InitializeParams::from_json(&json("{}")).is_none());
    assert!(ToolsCallParams::from_json(&json(r#"{"name": 5}"#)).is_none());
    assert!(ToolsListParams::from_json(&json(r#"{"cursor": 5}"#)).is_none());
    assert!(ToolInfo::new("t", json("{}")).is_ok());
}
