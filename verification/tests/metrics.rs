use erlangrt::agent_rt::bridge_metrics::BridgeMetrics;
use erlangrt::agent_rt::observability::{duration_to_ms, RuntimeMetrics};
use erlangrt::agent_rt::server::ServerState;
use erlangrt::agent_rt::types::IoResult;
use erlangrt::json::Json;

const SECOND: u128 = 1_000_000_000;

#[test]
fn counters_count() {
    let mut m = RuntimeMetrics::new(5 * SECOND);
    m.record_message_sent();
    m.record_message_sent();
    m.record_message_processed();
    m.record_mailbox_rejection();
    m.record_io_request();
    m.record_io_result(&IoResult::Done(Json::Null), 3_500_000);
    m.record_io_result(&IoResult::Error("e".to_string()), 1_000_000);
    m.record_io_result(&IoResult::Timeout, 0);
    m.record_rate_limiter_wait(2_000_000);
    m.record_rate_limiter_rejection();
    m.record_process_termination();
    let s = ServerState { metrics: m, process_count: 4 }.snapshot(65 * SECOND);
    assert_eq!(s.uptime_secs, 60);
    assert_eq!(s.active_processes, 4);
    assert_eq!(s.messages_sent_total, 2);
    assert_eq!(s.messages_processed_total, 1);
    assert_eq!(s.mailbox_rejections_total, 1);
    assert_eq!(s.io_requests_total, 1);
    assert_eq!(s.io_responses_total, 3);
    assert_eq!(s.io_errors_total, 1);
    assert_eq!(s.io_timeouts_total, 1);
    assert_eq!(s.io_latency_samples, 3);
    assert_eq!(s.io_latency_total_ms, 4);
    assert_eq!(s.rate_limiter_waits_total, 1);
    assert_eq!(s.rate_limiter_wait_ms_total, 2);
    assert_eq!(s.rate_limiter_rejections_total, 1);
    assert_eq!(s.process_terminations_total, 1);
    assert_eq!(duration_to_ms(u128::MAX), u64::MAX);
}

#[test]
fn health_tells_the_time() {
    let s = ServerState { metrics: RuntimeMetrics::new(0), process_count: 0 };
    assert_eq!(s.health(9 * SECOND), Json::parse(r#"{"status": "ok", "uptime_secs": 9}"#).unwrap());
}

#[test]
fn the_bridge_counts() {
    let mut m = BridgeMetrics::new();
    m.inc_destroy_failures();
    m.inc_busy_rejections();
    m.inc_busy_rejections();
    m.inc_chat_panics();
    assert_eq!(m.agent_destroy_failures(), 1);
    assert_eq!(m.worker_busy_rejections(), 2);
    assert_eq!(m.agent_chat_panics(), 1);
}
