use erlangrt::agent_rt::retry_policy::{RetryStrategy, RetryTracker};
use erlangrt::json::Json;

fn json(text: &str) -> Json {
    Json::parse(text).unwrap()
}

#[test]
fn test_no_retry_strategy() {
    let mut tracker = RetryTracker::new(RetryStrategy::Never);
    assert!(tracker.should_retry("task-1").is_none());
}

#[test]
fn test_immediate_retry() {
    let mut tracker = RetryTracker::new(RetryStrategy::Immediate { max_attempts: 3 });
    assert_eq!(tracker.should_retry("t1"), Some(0));
    assert_eq!(tracker.should_retry("t1"), Some(0));
    assert_eq!(tracker.should_retry("t1"), Some(0));
    assert_eq!(tracker.should_retry("t1"), None);
}

#[test]
fn test_backoff_retry() {
    let mut tracker = RetryTracker::new(RetryStrategy::Backoff {
        max_attempts: 3,
        base_ms: 100,
        max_ms: 1000,
    });
    assert_eq!(tracker.should_retry("t1"), Some(100));
    assert_eq!(tracker.should_retry("t1"), Some(200));
    assert_eq!(tracker.should_retry("t1"), Some(400));
    assert_eq!(tracker.should_retry("t1"), None);
}

#[test]
fn test_backoff_capped_at_max() {
    let mut tracker = RetryTracker::new(RetryStrategy::Backoff {
        max_attempts: 5,
        base_ms: 500,
        max_ms: 1000,
    });
    assert_eq!(tracker.should_retry("t1"), Some(500));
    assert_eq!(tracker.should_retry("t1"), Some(1000));
    assert_eq!(tracker.should_retry("t1"), Some(1000));
}

#[test]
fn test_skip_strategy() {
    let mut tracker = RetryTracker::new(RetryStrategy::Skip);
    assert!(tracker.should_retry("t1").is_none());
}

#[test]
fn test_per_task_override() {
    let mut tracker = RetryTracker::new(RetryStrategy::Never);
    tracker.set_task_strategy("special", RetryStrategy::Immediate { max_attempts: 2 });
    assert!(tracker.should_retry("normal").is_none());
    assert_eq!(tracker.should_retry("special"), Some(0));
    assert_eq!(tracker.should_retry("special"), Some(0));
    assert_eq!(tracker.should_retry("special"), None);
}

#[test]
fn test_parse_task_retry_backoff() {
    let task = json(
        r#"{"task_id": "t1",
            "retry": {"strategy": "backoff", "max_attempts": 3, "base_ms": 1000, "max_ms": 30000}}"#,
    );
    let strategy = RetryTracker::parse_task_retry(&task).unwrap();
    match strategy {
        RetryStrategy::Backoff { max_attempts, base_ms, max_ms } => {
            assert_eq!(max_attempts, 3);
            assert_eq!(base_ms, 1000);
            assert_eq!(max_ms, 30000);
        }
        _ => panic!("expected Backoff"),
    }
}

#[test]
fn test_parse_task_retry_none() {
    let task = json(r#"{"task_id": "t1"}"#);
    assert!(RetryTracker::parse_task_retry(&task).is_none());
}

#[test]
fn test_independent_task_tracking() {
    let mut tracker = RetryTracker::new(RetryStrategy::Immediate { max_attempts: 2 });
    assert_eq!(tracker.should_retry("a"), Some(0));
    assert_eq!(tracker.should_retry("b"), Some(0));
    assert_eq!(tracker.attempt_count("a"), 1);
    assert_eq!(tracker.attempt_count("b"), 1);
}

#[test]
fn exhausted_tracker_stays_exhausted() {
    let mut tracker = RetryTracker::new(RetryStrategy::Immediate { max_attempts: 1 });
    assert_eq!(tracker.should_retry("a"), Some(0));
    for _ in 0..3 {
        assert_eq!(tracker.should_retry("a"), None);
    }
}
