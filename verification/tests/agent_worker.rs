use erlangrt::agent_rt::agent_worker::AgentWorkerBehavior;
use erlangrt::agent_rt::types::{Action, AgentBehavior, IoOp, IoResult, Message, SystemMsg};
use erlangrt::json::Json;

fn json(text: &str) -> Json {
    Json::parse(text).unwrap()
}

fn worker() -> AgentWorkerBehavior {
    AgentWorkerBehavior::new(
        "test".to_string(),
        "openrouter".to_string(),
        None,
        None,
        vec![],
        None,
        None,
    )
}

#[test]
fn test_agent_worker_init_stores_config() {
    let behavior = AgentWorkerBehavior::new(
        "researcher".to_string(),
        "openrouter".to_string(),
        Some("vendor/model-4".to_string()),
        Some("You are helpful.".to_string()),
        vec!["web_fetch".to_string()],
        None,
        None,
    );
    let s = behavior.init(json("{}")).unwrap();
    assert!(!s.busy);
    assert!(s.last_requester.is_none());
}

#[test]
fn test_agent_worker_text_message_returns_io_request() {
    let behavior = worker();
    let mut state = behavior.init(json("{}")).unwrap();
    let action = behavior.handle_message(Message::Text("hello".to_string()), &mut state);
    match action {
        Action::IoRequest(IoOp::AgentChat { prompt, provider, .. }) => {
            assert_eq!(prompt, "hello");
            assert_eq!(provider, "openrouter");
        }
        _ => panic!("Expected IoRequest(AgentChat)"),
    }
}

#[test]
fn test_agent_worker_rejects_while_busy() {
    let behavior = worker();
    let mut state = behavior.init(json("{}")).unwrap();
    // First message -- should submit IoRequest
    let _ = behavior.handle_message(Message::Text("hello".to_string()), &mut state);
    // Second message while busy -- should Continue (queue)
    let action = behavior.handle_message(Message::Text("world".to_string()), &mut state);
    assert!(matches!(action, Action::Continue));
}

#[test]
fn test_agent_worker_io_response_clears_busy() {
    let behavior = worker();
    let mut state = behavior.init(json("{}")).unwrap();
    // Send a message to make it busy
    let _ = behavior.handle_message(Message::Text("hello".to_string()), &mut state);
    // Simulate IoResponse
    let action = behavior.handle_message(
        Message::System(SystemMsg::IoResponse {
            correlation_id: 1,
            result: IoResult::Done(json(r#"{"response": "hi there"}"#)),
        }),
        &mut state,
    );
    // Should be Continue (response processed)
    assert!(matches!(action, Action::Continue));
    // No longer busy
    assert!(!state.busy);
}

#[test]
fn waiting_prompt_is_taken_up() {
    let behavior = worker();
    let mut state = behavior.init(json("{}")).unwrap();
    let _ = behavior.handle_message(Message::Text("one".to_string()), &mut state);
    let _ = behavior.handle_message(Message::Text("two".to_string()), &mut state);
    let action = behavior.handle_message(
        Message::System(SystemMsg::IoResponse { correlation_id: 1, result: IoResult::Timeout }),
        &mut state,
    );
    assert!(matches!(action, Action::IoRequest(IoOp::AgentChat { prompt, .. }) if prompt == "two"));
    assert!(state.busy);
}
