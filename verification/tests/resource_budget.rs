use erlangrt::agent_rt::resource_budget::{ResourceBudget, UsageReport};
use erlangrt::json::Json;

fn json(text: &str) -> Json {
    Json::parse(text).unwrap()
}

#[test]
fn test_unlimited_budget_never_exhausted() {
    let mut budget = ResourceBudget::unlimited();
    let usage = UsageReport { input_tokens: 1_000_000, output_tokens: 500_000, model: None };
    let exhausted = budget.record_usage(&usage, false);
    assert!(!exhausted);
    assert!(!budget.is_exhausted(false));
    assert_eq!(budget.tokens_used(), 1_500_000);
}

#[test]
fn test_token_budget_exhaustion() {
    let mut budget = ResourceBudget::new(Some(1000));
    budget.record_usage(
        &UsageReport { input_tokens: 400, output_tokens: 300, model: None },
        false,
    );
    assert!(!budget.is_exhausted(false));
    assert_eq!(budget.tokens_used(), 700);

    budget.record_usage(
        &UsageReport { input_tokens: 200, output_tokens: 200, model: None },
        false,
    );
    assert!(budget.is_exhausted(false));
    assert_eq!(budget.tokens_used(), 1100);
}

#[test]
fn test_snapshot() {
    let mut budget = ResourceBudget::new(Some(10000));
    budget.record_usage(
        &UsageReport { input_tokens: 100, output_tokens: 50, model: None },
        false,
    );
    let snap = budget.snapshot(json("0.0"), json("5.0"));
    assert_eq!(snap.get_u64("tokens_used"), Some(150));
    assert_eq!(snap.get_u64("max_tokens"), Some(10000));
}

#[test]
fn test_parse_usage_from_worker_result() {
    let payload = json(
        r#"{"type": "worker_result",
            "usage": {"input_tokens": 500, "output_tokens": 200, "model": "gpt-4o"}}"#,
    );
    let usage = ResourceBudget::parse_usage(&payload).unwrap();
    assert_eq!(usage.input_tokens, 500);
    assert_eq!(usage.output_tokens, 200);
    assert_eq!(usage.model, Some("gpt-4o".to_string()));
}

#[test]
fn test_parse_usage_missing() {
    let payload = json(r#"{"type": "worker_result"}"#);
    assert!(ResourceBudget::parse_usage(&payload).is_none());
}

#[test]
fn test_record_returns_true_on_exhaustion() {
    let mut budget = ResourceBudget::new(Some(100));
    let exhausted = budget.record_usage(
        &UsageReport { input_tokens: 200, output_tokens: 0, model: None },
        false,
    );
    assert!(exhausted);
}

#[test]
fn spent_money_exhausts_a_budget_too() {
    let mut budget = ResourceBudget::unlimited();
    let usage = UsageReport { input_tokens: u64::MAX, output_tokens: 7, model: None };
    assert!(budget.record_usage(&usage, true));
    assert!(!budget.record_usage(&usage, false));
    assert_eq!(budget.tokens_used(), u64::MAX);
}
