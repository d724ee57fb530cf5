use erlangrt::agent_rt::dead_letter::{DeadLetter, DeadLetterQueue, DeadLetterReason};
use erlangrt::agent_rt::types::AgentPid;

#[test]
fn test_dead_letter_queue_basic() {
    let mut dlq = DeadLetterQueue::new(3);
    assert!(dlq.is_empty());
    assert_eq!(dlq.total_count(), 0);

    for i in 0..5 {
        dlq.push(DeadLetter {
            timestamp: 0,
            sender_pid: None,
            target_pid: AgentPid::from_raw(i),
            reason: DeadLetterReason::ProcessNotFound,
        });
    }

    assert_eq!(dlq.len(), 3);
    assert_eq!(dlq.total_count(), 5);
    assert_eq!(dlq.recent()[0].target_pid.raw(), 2);
}
