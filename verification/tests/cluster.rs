use erlangrt::agent_rt::cluster::SchedulerCluster;
use erlangrt::agent_rt::types::{Action, AgentBehavior, AgentPid, Message, Reason};
use erlangrt::json::Json;

/// A process that does nothing, or one that answers every message by sending one on.
enum TestBehavior {
    Nop,
    Sender,
}

struct TestState {
    target: Option<AgentPid>,
}

impl AgentBehavior for TestBehavior {
    type State = TestState;

    fn init(&self, args: Json) -> Result<TestState, Reason> {
        match self {
            TestBehavior::Nop => Ok(TestState { target: None }),
            TestBehavior::Sender => match args.get_u64("target") {
                Some(raw) => Ok(TestState { target: Some(AgentPid::from_raw(raw)) }),
                None => Err(Reason::Custom("missing target".to_string())),
            },
        }
    }

    fn handle_message(&self, _msg: Message, state: &mut TestState) -> Action<Self> {
        match state.target {
            Some(to) => Action::Send { to, msg: Message::Text("cross-partition".to_string()) },
            None => Action::Continue,
        }
    }

    fn handle_exit(&self, _from: AgentPid, _reason: Reason, _state: &mut TestState) -> Action<Self> {
        Action::Continue
    }

    fn terminate(&self, _reason: Reason, _state: &mut TestState) {}
}

#[test]
fn test_cluster_spawn_round_robin_across_partitions() {
    let mut cluster = SchedulerCluster::new(2);

    let p1 = cluster.spawn(TestBehavior::Nop, Json::Null).unwrap();
    let p2 = cluster.spawn(TestBehavior::Nop, Json::Null).unwrap();
    let p3 = cluster.spawn(TestBehavior::Nop, Json::Null).unwrap();

    assert_eq!(cluster.owner_of(p1), Some(0));
    assert_eq!(cluster.owner_of(p2), Some(1));
    assert_eq!(cluster.owner_of(p3), Some(0));
}

#[test]
fn test_cluster_routes_cross_scheduler_messages() {
    let mut cluster = SchedulerCluster::new(2);
    let receiver = cluster.spawn(TestBehavior::Nop, Json::Null).unwrap();
    let args = Json::parse(&format!(r#"{{"target": {}}}"#, receiver.raw())).unwrap();
    let sender = cluster.spawn(TestBehavior::Sender, args).unwrap();

    cluster.send(sender, Message::Text("go".to_string())).unwrap();
    cluster.enqueue(sender).unwrap();
    cluster.tick();

    let receiver_partition = cluster.owner_of(receiver).unwrap();
    let receiver_proc = cluster
        .scheduler(receiver_partition)
        .unwrap()
        .registry
        .lookup(&receiver)
        .unwrap();
    assert_eq!(receiver_proc.mailbox.len(), 1);
    assert!(matches!(
        receiver_proc.mailbox.front(),
        Some(Message::Text(text)) if text == "cross-partition"
    ));
}

#[test]
fn a_cluster_has_at_least_one_scheduler() {
    let cluster: SchedulerCluster<TestBehavior> = SchedulerCluster::new(0);
    assert_eq!(cluster.scheduler_count(), 1);
    assert!(cluster.scheduler(1).is_none());
}

#[test]
fn unknown_processes_and_partitions_are_refused() {
    let mut cluster = SchedulerCluster::new(2);
    let nobody = AgentPid::from_raw(1);
    assert!(cluster.send(nobody, Message::Text("m".to_string())).is_err());
    assert!(cluster.enqueue(nobody).is_err());
    assert_eq!(cluster.owner_of(nobody), None);
    assert!(cluster.spawn_on(2, TestBehavior::Nop, Json::Null).is_err());
    assert!(matches!(
        cluster.spawn(TestBehavior::Sender, Json::Null),
        Err(Reason::Custom(text)) if text == "missing target"
    ));
    let p = cluster.spawn_on(1, TestBehavior::Nop, Json::Null).unwrap();
    assert_eq!(cluster.owner_of(p), Some(1));
}
