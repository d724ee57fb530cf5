use erlangrt::agent_rt::mcp_jsonrpc::{JsonRpcError, JsonRpcRequest, JsonRpcResponse};
use erlangrt::json::{Json, JsonNum};

fn json(text: &str) -> Json {
    Json::parse(text).unwrap()
}

#[test]
fn test_request_serialization() {
    let request = JsonRpcRequest::new(Some(Json::Str("1".to_string())), "initialize")
        .with_params(json(r#"{"protocolVersion": "2024-11-05"}"#));
    let text = request.to_json().to_text();
    assert!(text.contains("\"jsonrpc\":\"2.0\""));
    assert!(text.contains("\"id\":\"1\""));
    assert!(text.contains("\"method\":\"initialize\""));
}

#[test]
fn test_request_deserialization() {
    let text = r#"{"jsonrpc":"2.0","id":1,"method":"ping","params":null}"#;
    let request = JsonRpcRequest::from_json(&json(text)).unwrap();
    assert_eq!(request.jsonrpc, "2.0");
    assert_eq!(request.id, Some(Json::Num(JsonNum::PosInt(1))));
    assert_eq!(request.method, "ping");
}

#[test]
fn test_response_serialization() {
    let response = JsonRpcResponse::success(
        Some(Json::Str("1".to_string())),
        json(r#"{"protocolVersion": "2024-11-05"}"#),
    );
    let text = response.to_json().to_text();
    assert!(text.contains("\"jsonrpc\":\"2.0\""));
    assert!(text.contains("\"id\":\"1\""));
    assert!(text.contains("\"result\""));
}

#[test]
fn test_error_response() {
    let response =
        JsonRpcResponse::error(Some(Json::Str("1".to_string())), -32601, "Method not found");
    let text = response.to_json().to_text();
    assert!(text.contains("\"code\":-32601"));
    assert!(text.contains("Method not found"));
}

#[test]
fn test_notification_detection() {
    let notification = JsonRpcRequest::new(None, "ping");
    assert!(notification.is_notification());

    let request = JsonRpcRequest::new(Some(json("1")), "ping");
    assert!(!request.is_notification());
}

#[test]
fn test_standard_errors() {
    assert_eq!(JsonRpcError::parse_error("test").code, -32700);
    assert_eq!(JsonRpcError::invalid_request("test").code, -32600);
    assert_eq!(JsonRpcError::method_not_found("test").code, -32601);
    assert_eq!(JsonRpcError::invalid_params("test").code, -32602);
    assert_eq!(JsonRpcError::internal_error("test").code, -32603);
    assert_eq!(JsonRpcError::session_not_found().code, -32001);
    assert_eq!(JsonRpcError::not_initialized().code, -32002);
    assert_eq!(JsonRpcError::already_initialized().code, -32003);
    assert_eq!(JsonRpcError::tool_not_found("test").code, -32004);
}

#[test]
fn request_comes_back_from_its_text() {
    let request = JsonRpcRequest::new(Some(json("7")), "tools/call")
        .with_params(json(r#"{"name": "x", "arguments": {"n": 1}}"#));
    let text = request.to_json().to_text();
    let again = JsonRpcRequest::from_json(&json(&text)).unwrap();
    assert_eq!(again.method, "tools/call");
    assert_eq!(again.id, Some(json("7")));
    assert!(again.params.unwrap().same(&json(r#"{"name": "x", "arguments": {"n": 1}}"#)));
    assert!(JsonRpcRequest::from_json(&json(r#"{"id": 1}"#)).is_none());
}
