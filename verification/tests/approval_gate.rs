use erlangrt::agent_rt::approval_gate::{
    approval_message, task_requires_approval, ApprovalDecision, ApprovalRegistry,
};
use erlangrt::json::Json;
use std::sync::{Arc, Mutex};

fn json(text: &str) -> Json {
    Json::parse(text).unwrap()
}

#[test]
fn test_request_and_approve() {
    let mut registry = ApprovalRegistry::new();
    registry.request_approval("orch-1", "task-a", "Deploy?", json(r#"{"task_id": "task-a"}"#), 0);
    assert!(registry.has_pending("orch-1", "task-a"));
    assert_eq!(registry.pending_requests().len(), 1);

    registry.submit_decision("orch-1", "task-a", ApprovalDecision::Approved);
    assert!(!registry.has_pending("orch-1", "task-a"));

    let decision = registry.take_decision("orch-1", "task-a");
    assert_eq!(decision, Some(ApprovalDecision::Approved));
    assert!(registry.take_decision("orch-1", "task-a").is_none());
}

#[test]
fn test_reject() {
    let mut registry = ApprovalRegistry::new();
    registry.request_approval("o1", "t1", "OK?", json("{}"), 0);
    registry.submit_decision(
        "o1",
        "t1",
        ApprovalDecision::Rejected { reason: "not ready".to_string() },
    );
    let decision = registry.take_decision("o1", "t1").unwrap();
    assert_eq!(decision, ApprovalDecision::Rejected { reason: "not ready".to_string() });
}

#[test]
fn test_submit_unknown_task_returns_false() {
    let mut registry = ApprovalRegistry::new();
    let ok = registry.submit_decision("o1", "unknown", ApprovalDecision::Approved);
    assert!(!ok);
}

#[test]
fn test_task_requires_approval() {
    assert!(task_requires_approval(&json(r#"{"requires_approval": true}"#)));
    assert!(!task_requires_approval(&json(r#"{"requires_approval": false}"#)));
    assert!(!task_requires_approval(&json(r#"{"task_id": "t1"}"#)));
}

#[test]
fn test_approval_message_fallback() {
    assert_eq!(approval_message(&json(r#"{"approval_message": "Ship it?"}"#)), "Ship it?");
    assert_eq!(approval_message(&json("{}")), "Approval required");
}

#[test]
fn test_shared_registry_thread_safety() {
    let registry = Arc::new(Mutex::new(ApprovalRegistry::new()));
    let r2 = registry.clone();

    {
        let mut reg = registry.lock().unwrap();
        reg.request_approval("o", "t", "msg", json("{}"), 0);
    }
    {
        let reg = r2.lock().unwrap();
        assert!(reg.has_pending("o", "t"));
    }
}
