use erlangrt::agent_rt::bridge::{create_bridge, execute_io_op, responses_to_messages, IoResponse};
use erlangrt::agent_rt::process::{AgentProcess, Priority, ProcessStatus};
use erlangrt::agent_rt::registry::AgentRegistry;
use erlangrt::agent_rt::scheduler::AgentScheduler;
use erlangrt::agent_rt::types::{
    Action, AgentBehavior, AgentPid, IoOp, IoResult, Message, PidSource, Reason, SystemMsg,
};
use erlangrt::json::Json;

struct EchoState {
    received: Vec<Message>,
}

#[derive(Clone)]
struct EchoBehavior;

impl AgentBehavior for EchoBehavior {
    type State = EchoState;

    fn init(&self, _args: Json) -> Result<EchoState, Reason> {
        Ok(EchoState { received: Vec::new() })
    }

    fn handle_message(&self, msg: Message, state: &mut EchoState) -> Action<Self> {
        state.received.push(msg);
        Action::Continue
    }

    fn handle_exit(&self, _from: AgentPid, _reason: Reason, _state: &mut EchoState) -> Action<Self> {
        Action::Continue
    }

    fn terminate(&self, _reason: Reason, _state: &mut EchoState) {}
}

fn text(s: &str) -> Message {
    Message::Text(s.to_string())
}

fn echo_process() -> AgentProcess<EchoBehavior> {
    let mut pids = PidSource::new();
    AgentProcess::new(&mut pids, EchoBehavior, Json::Null).unwrap()
}

fn echo_scheduler() -> AgentScheduler<EchoBehavior> {
    AgentScheduler::new()
}

#[test]
fn test_agent_pid_starts_at_high_range() {
    let mut pids = PidSource::new();
    let pid = AgentPid::new(&mut pids);
    assert!(pid.raw() >= 0x8000_0000, "Agent PIDs should start at 0x8000_0000");
}

#[test]
fn test_agent_pid_increments() {
    let mut pids = PidSource::new();
    let p1 = AgentPid::new(&mut pids);
    let p2 = AgentPid::new(&mut pids);
    assert!(p2.raw() > p1.raw());
}

#[test]
fn test_agent_process_creation() {
    let proc = echo_process();
    assert_eq!(proc.status, ProcessStatus::Runnable);
    assert!(!proc.has_messages());
    assert!(proc.links.is_empty());
    assert!(!proc.trap_exit);
}

#[test]
fn test_deliver_message() {
    let mut proc = echo_process();
    assert!(!proc.has_messages());

    proc.deliver_message(text("hello"));
    assert!(proc.has_messages());

    let msg = proc.next_message().unwrap();
    match msg {
        Message::Text(s) => assert_eq!(s, "hello"),
        _ => panic!("Expected Text message"),
    }
    assert!(!proc.has_messages());
}

#[test]
fn test_deliver_message_wakes_waiting_process() {
    let mut proc = echo_process();
    proc.status = ProcessStatus::Waiting;

    proc.deliver_message(text("wake up"));
    assert_eq!(proc.status, ProcessStatus::Runnable);
}

#[test]
fn test_handle_message_stores_in_state() {
    let mut proc = echo_process();
    let state = proc.state.as_mut().unwrap();
    let _action = EchoBehavior.handle_message(text("test"), state);
    assert_eq!(state.received.len(), 1);
}

#[test]
fn test_message_ordering_fifo() {
    let mut proc = echo_process();

    proc.deliver_message(text("first"));
    proc.deliver_message(text("second"));
    proc.deliver_message(text("third"));

    match proc.next_message().unwrap() {
        Message::Text(s) => assert_eq!(s, "first"),
        _ => panic!("Expected Text"),
    }
    match proc.next_message().unwrap() {
        Message::Text(s) => assert_eq!(s, "second"),
        _ => panic!("Expected Text"),
    }
    match proc.next_message().unwrap() {
        Message::Text(s) => assert_eq!(s, "third"),
        _ => panic!("Expected Text"),
    }
}

#[test]
fn test_registry_spawn_returns_pid() {
    let mut reg = AgentRegistry::new();
    let pid = reg.spawn(EchoBehavior, Json::Null).unwrap();
    assert!(pid.raw() >= 0x8000_0000, "Spawned pid should be in the agent range");
}

#[test]
fn test_registry_lookup_existing() {
    let mut reg = AgentRegistry::new();
    let pid = reg.spawn(EchoBehavior, Json::Null).unwrap();
    let proc = reg.lookup(&pid);
    assert!(proc.is_some());
    assert_eq!(proc.unwrap().pid, pid);
}

#[test]
fn test_registry_lookup_missing() {
    let reg: AgentRegistry<EchoBehavior> = AgentRegistry::new();
    let fake_pid = AgentPid::new(&mut PidSource::new());
    assert!(reg.lookup(&fake_pid).is_none());
}

#[test]
fn test_registry_remove() {
    let mut reg = AgentRegistry::new();
    let pid = reg.spawn(EchoBehavior, Json::Null).unwrap();
    assert!(reg.lookup(&pid).is_some());

    let removed = reg.remove(&pid);
    assert!(removed.is_some());
    assert!(reg.lookup(&pid).is_none());
}

#[test]
fn test_registry_register_name() {
    let mut reg = AgentRegistry::new();
    let pid = reg.spawn(EchoBehavior, Json::Null).unwrap();

    reg.register_name("echo_server", pid);
    let found = reg.lookup_name("echo_server");
    assert_eq!(found, Some(pid));

    // Unregister and verify gone
    reg.unregister_name("echo_server");
    assert!(reg.lookup_name("echo_server").is_none());
}

#[test]
fn test_registry_count() {
    let mut reg = AgentRegistry::new();
    assert_eq!(reg.count(), 0);

    reg.spawn(EchoBehavior, Json::Null).unwrap();
    reg.spawn(EchoBehavior, Json::Null).unwrap();
    assert_eq!(reg.count(), 2);
}

#[test]
fn the_names_of_a_removed_process_go_with_it() {
    let mut reg = AgentRegistry::new();
    let pid = reg.spawn(EchoBehavior, Json::Null).unwrap();
    let other = reg.spawn(EchoBehavior, Json::Null).unwrap();
    reg.register_name("a", pid);
    reg.register_name("b", pid);
    reg.register_name("c", other);
    reg.remove(&pid);
    assert_eq!(reg.lookup_name("a"), None);
    assert_eq!(reg.lookup_name("b"), None);
    assert_eq!(reg.lookup_name("c"), Some(other));
    assert_eq!(reg.pids(), vec![other]);
}

#[test]
fn test_scheduler_tick_returns_false_when_empty() {
    let mut sched = echo_scheduler();
    assert!(!sched.tick());
}

#[test]
fn test_scheduler_dispatches_message() {
    let mut sched = echo_scheduler();
    let pid = sched.registry.spawn(EchoBehavior, Json::Null).unwrap();
    sched.send(pid, text("hello")).unwrap();
    sched.enqueue(pid);
    assert!(sched.tick());
}

#[test]
fn test_scheduler_process_yields_after_reductions() {
    let mut sched = echo_scheduler();
    let pid = sched.registry.spawn(EchoBehavior, Json::Null).unwrap();
    for i in 0..500 {
        sched.send(pid, Message::Text(format!("msg_{}", i))).unwrap();
    }
    sched.enqueue(pid);
    sched.tick();
    let proc = sched.registry.lookup(&pid).unwrap();
    assert!(
        proc.has_messages(),
        "Should still have unprocessed messages after reduction limit"
    );
    assert_eq!(proc.mailbox.len(), 300);
}

#[test]
fn test_scheduler_waiting_process_wakes_on_message() {
    let mut sched = echo_scheduler();
    let pid = sched.registry.spawn(EchoBehavior, Json::Null).unwrap();
    sched.enqueue(pid);
    // empty mailbox -> Waiting
    sched.tick();
    assert_eq!(sched.registry.lookup(&pid).unwrap().status, ProcessStatus::Waiting);

    sched.send(pid, text("wake")).unwrap();
    assert_eq!(sched.registry.lookup(&pid).unwrap().status, ProcessStatus::Runnable);
}

#[test]
fn test_scheduler_high_priority_runs_first() {
    let mut sched = echo_scheduler();

    let low_pid = sched.registry.spawn(EchoBehavior, Json::Null).unwrap();
    if let Some(p) = sched.registry.lookup_mut(&low_pid) {
        p.priority = Priority::Low;
    }

    let high_pid = sched.registry.spawn(EchoBehavior, Json::Null).unwrap();
    if let Some(p) = sched.registry.lookup_mut(&high_pid) {
        p.priority = Priority::High;
    }

    // Send messages to both
    sched.send(low_pid, text("low_msg")).unwrap();
    sched.send(high_pid, text("high_msg")).unwrap();

    // Enqueue low first, then high
    sched.enqueue(low_pid);
    sched.enqueue(high_pid);

    // Tick should run high_pid first
    sched.tick();

    // high_pid should have consumed its message
    // (now Waiting with empty mailbox)
    let high_proc = sched.registry.lookup(&high_pid).unwrap();
    assert_eq!(high_proc.status, ProcessStatus::Waiting, "High priority should have run first");
    assert!(!high_proc.has_messages());

    // low_pid should still have its message
    let low_proc = sched.registry.lookup(&low_pid).unwrap();
    assert!(low_proc.has_messages(), "Low priority should not have run yet");
}

#[test]
fn test_scheduler_terminate_removes_process() {
    let mut sched = echo_scheduler();
    let pid = sched.registry.spawn(EchoBehavior, Json::Null).unwrap();
    assert!(sched.registry.lookup(&pid).is_some());

    sched.terminate_process(pid, Reason::Normal);
    assert!(sched.registry.lookup(&pid).is_none());
}

#[test]
fn test_scheduler_terminate_notifies_links() {
    let mut sched = echo_scheduler();

    let pid_a = sched.registry.spawn(EchoBehavior, Json::Null).unwrap();
    let pid_b = sched.registry.spawn(EchoBehavior, Json::Null).unwrap();

    // Link a -> b
    if let Some(proc_a) = sched.registry.lookup_mut(&pid_a) {
        proc_a.links.push(pid_b);
    }

    // Terminate a, b should get Exit message
    sched.terminate_process(pid_a, Reason::Normal);

    let proc_b = sched.registry.lookup(&pid_b).unwrap();
    assert!(proc_b.has_messages(), "Linked process should receive Exit message");
    assert!(matches!(
        proc_b.mailbox.front(),
        Some(Message::System(SystemMsg::Exit { from, reason: Reason::Normal })) if *from == pid_a.raw()
    ));
}

#[test]
fn test_scheduler_send_to_missing_process_errors() {
    let mut sched = echo_scheduler();
    let fake_pid = AgentPid::new(&mut PidSource::new());
    let result = sched.send(fake_pid, text("oops"));
    assert!(result.is_err());
}

#[test]
fn test_scheduler_multiple_ticks_drain_mailbox() {
    let mut sched = echo_scheduler();
    let pid = sched.registry.spawn(EchoBehavior, Json::Null).unwrap();

    // Send exactly 5 messages
    for i in 0..5 {
        sched.send(pid, Message::Text(format!("msg_{}", i))).unwrap();
    }
    sched.enqueue(pid);

    // One tick should process all 5 (well within
    // 200 reductions)
    sched.tick();

    let proc = sched.registry.lookup(&pid).unwrap();
    assert!(!proc.has_messages(), "All 5 messages should be consumed in one tick");
    assert_eq!(proc.status, ProcessStatus::Waiting);
}

#[test]
fn a_low_process_gets_its_turn_under_load() {
    let mut sched = echo_scheduler();
    let high = sched.registry.spawn(EchoBehavior, Json::Null).unwrap();
    let low = sched.registry.spawn(EchoBehavior, Json::Null).unwrap();
    sched.registry.lookup_mut(&low).unwrap().priority = Priority::Low;
    for _ in 0..5000 {
        sched.send(high, text("m")).unwrap();
    }
    sched.send(low, text("l")).unwrap();
    sched.enqueue(high);
    sched.enqueue(low);
    for _ in 0..12 {
        sched.tick();
    }
    assert!(sched.registry.lookup(&high).unwrap().has_messages());
    assert!(!sched.registry.lookup(&low).unwrap().has_messages());
}

#[test]
fn snapshots_show_the_processes() {
    let mut sched = echo_scheduler();
    let pid = sched.registry.spawn(EchoBehavior, Json::Null).unwrap();
    sched.send(pid, text("m")).unwrap();
    let list = sched.list_processes();
    assert_eq!(list.len(), 1);
    assert_eq!(list[0].pid, pid.raw());
    assert_eq!(list[0].mailbox_depth, 1);
}

#[test]
fn test_bridge_creation() {
    let (_handle, _worker) = create_bridge();
}

#[test]
fn the_queue_of_requests_is_bounded() {
    let (mut handle, _worker) = create_bridge();
    let pid = AgentPid::from_raw(7);
    for i in 0..1024 {
        assert_eq!(handle.submit(pid, IoOp::Timer { duration_ms: 1 }), Ok(i));
    }
    assert!(handle.submit(pid, IoOp::Timer { duration_ms: 1 }).is_err());
}

#[test]
fn test_bridge_submit_returns_correlation_id() {
    let (mut handle, _worker) = create_bridge();
    let pid = AgentPid::new(&mut PidSource::new());
    let op = IoOp::Timer { duration_ms: 100 };
    let id1 = handle.submit(pid, op).unwrap();
    let op2 = IoOp::Timer { duration_ms: 50 };
    let id2 = handle.submit(pid, op2).unwrap();
    assert_eq!(id1, 0);
    assert_eq!(id2, 1);
}

#[test]
fn test_bridge_drain_empty() {
    let (handle, _worker) = create_bridge();
    assert!(handle.drain_responses().is_empty());
}

#[test]
fn what_is_handed_over_arrives() {
    let (mut handle, worker) = create_bridge();
    let pid = AgentPid::from_raw(7);
    let id = handle.submit(pid, IoOp::Timer { duration_ms: 5 }).unwrap();
    let request = worker.request_rx.try_recv().unwrap();
    assert_eq!(request.correlation_id, id);
    assert_eq!(request.source_pid, pid);
    assert!(matches!(request.op, IoOp::Timer { duration_ms: 5 }));
    worker
        .response_tx
        .send(IoResponse {
            correlation_id: id,
            source_pid: pid,
            result: IoResult::Timeout,
        })
        .unwrap();
    let got = handle.drain_responses();
    assert_eq!(got.len(), 1);
    assert_eq!(got[0].0, pid);
    assert!(matches!(
        &got[0].1,
        Message::System(SystemMsg::IoResponse { correlation_id: 0, result: IoResult::Timeout })
    ));
}

#[test]
fn a_gone_worker_refuses_requests() {
    let (mut handle, worker) = create_bridge();
    drop(worker);
    let pid = AgentPid::from_raw(7);
    let e = handle.submit(pid, IoOp::Timer { duration_ms: 5 }).unwrap_err();
    assert!(!e.is_empty());
}

#[test]
fn responses_keep_their_order() {
    let msgs = responses_to_messages(vec![
        IoResponse { correlation_id: 1, source_pid: AgentPid::from_raw(1), result: IoResult::Timeout },
        IoResponse {
            correlation_id: 2,
            source_pid: AgentPid::from_raw(2),
            result: IoResult::Done(Json::Null),
        },
    ]);
    assert_eq!(msgs[0].0.raw(), 1);
    assert_eq!(msgs[1].0.raw(), 2);
}

#[test]
fn operations_that_are_over_tell_what_they_were() {
    let r = execute_io_op(&IoOp::Timer { duration_ms: 12 });
    let want = Json::parse(r#"{"kind": "timer", "elapsed_ms": 12}"#).unwrap();
    assert_eq!(r, Some(IoResult::Done(want)));
    let op = IoOp::HttpRequest { method: "GET".to_string(), url: "u".to_string(), body: None };
    let r = execute_io_op(&op);
    let text = r#"{"kind": "http", "method": "GET", "url": "u", "status": "placeholder"}"#;
    assert_eq!(r, Some(IoResult::Done(Json::parse(text).unwrap())));
    let op = IoOp::Custom { kind: "k".to_string(), payload: Json::Null };
    assert_eq!(execute_io_op(&op), None);
}

#[test]
fn eight_normal_turns_come_before_a_low_one() {
    let mut sched: AgentScheduler<EchoBehavior> = AgentScheduler::new();
    let mut normal = Vec::new();
    for _ in 0..9 {
        normal.push(sched.registry.spawn(EchoBehavior, Json::Null).unwrap());
    }
    let low = sched.registry.spawn(EchoBehavior, Json::Null).unwrap();
    sched.registry.lookup_mut(&low).unwrap().priority = Priority::Low;
    for pid in &normal {
        sched.enqueue(*pid);
    }
    sched.enqueue(low);
    for pid in normal.iter().take(8) {
        assert_eq!(sched.next_runnable(), Some(*pid));
    }
    assert_eq!(sched.next_runnable(), Some(low));
    assert_eq!(sched.next_runnable(), Some(normal[8]));
    assert_eq!(sched.next_runnable(), None);
}

#[test]
fn schedulers_with_sources_of_their_own_give_out_different_ids() {
    let mut a: AgentScheduler<EchoBehavior> = AgentScheduler::with_pids(PidSource::starting_at(10));
    let mut b: AgentScheduler<EchoBehavior> = AgentScheduler::with_pids(PidSource::starting_at(20));
    assert_eq!(a.registry.spawn(EchoBehavior, Json::Null).unwrap().raw(), 10);
    assert_eq!(b.registry.spawn(EchoBehavior, Json::Null).unwrap().raw(), 20);
}

#[derive(Clone)]
struct Counting {
    ended: std::sync::Arc<std::sync::atomic::AtomicUsize>,
}

impl AgentBehavior for Counting {
    type State = u64;

    fn init(&self, _args: Json) -> Result<u64, Reason> {
        Ok(0)
    }

    fn handle_message(&self, _msg: Message, _state: &mut u64) -> Action<Self> {
        Action::Stop(Reason::Normal)
    }

    fn handle_exit(&self, _from: AgentPid, _reason: Reason, _state: &mut u64) -> Action<Self> {
        Action::Continue
    }

    fn terminate(&self, _reason: Reason, _state: &mut u64) {
        self.ended.fetch_add(1, std::sync::atomic::Ordering::SeqCst);
    }
}

#[test]
fn a_behavior_is_told_when_its_process_ends() {
    let ended = std::sync::Arc::new(std::sync::atomic::AtomicUsize::new(0));
    let count = || ended.load(std::sync::atomic::Ordering::SeqCst);
    let mut sched: AgentScheduler<Counting> = AgentScheduler::new();
    let a = sched.registry.spawn(Counting { ended: ended.clone() }, Json::Null).unwrap();
    let b = sched.registry.spawn(Counting { ended: ended.clone() }, Json::Null).unwrap();
    sched.terminate_process(a, Reason::Shutdown);
    assert_eq!(count(), 1);
    sched.terminate_process(a, Reason::Shutdown);
    assert_eq!(count(), 1);
    sched.send(b, text("stop")).unwrap();
    sched.enqueue(b);
    sched.tick();
    assert_eq!(count(), 2);
    assert!(sched.registry.lookup(&b).is_none());
}
