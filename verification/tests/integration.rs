use erlangrt::agent_rt::process::{Priority, ProcessStatus};
use erlangrt::agent_rt::scheduler::AgentScheduler;
use erlangrt::agent_rt::supervision::{
    ChildRestart, ChildSpec, RestartStrategy, ShutdownPolicy, Supervisor, SupervisorSpec,
};
use erlangrt::agent_rt::types::{Action, AgentBehavior, AgentPid, Message, Reason};
use erlangrt::json::Json;

const SECOND: u128 = 1_000_000_000;

// A behavior that counts messages and stops after N
struct CounterState {
    count: usize,
    stop_at: usize,
}

#[derive(Clone)]
struct CounterBehavior {
    stop_at: usize,
}

impl AgentBehavior for CounterBehavior {
    type State = CounterState;

    fn init(&self, _args: Json) -> Result<CounterState, Reason> {
        Ok(CounterState { count: 0, stop_at: self.stop_at })
    }

    fn handle_message(&self, _msg: Message, s: &mut CounterState) -> Action<Self> {
        s.count += 1;
        if s.count >= s.stop_at {
            Action::Stop(Reason::Normal)
        } else {
            Action::Continue
        }
    }

    fn handle_exit(
        &self,
        _from: AgentPid,
        _reason: Reason,
        _state: &mut CounterState,
    ) -> Action<Self> {
        Action::Continue
    }

    fn terminate(&self, _reason: Reason, _state: &mut CounterState) {}
}

fn child(id: &str, stop_at: usize, restart: ChildRestart) -> ChildSpec<CounterBehavior> {
    ChildSpec {
        id: id.to_string(),
        behavior: CounterBehavior { stop_at },
        args: Json::Null,
        restart,
        shutdown: ShutdownPolicy::Brutal,
        priority: Priority::Normal,
    }
}

#[test]
fn test_full_supervisor_lifecycle() {
    let spec = SupervisorSpec {
        strategy: RestartStrategy::OneForOne,
        max_restarts: 10,
        max_seconds: 60,
        children: vec![child("counter", 3, ChildRestart::Permanent)],
    };

    let mut sched = AgentScheduler::new();
    let mut sup = Supervisor::start(&mut sched, spec).unwrap();

    let child_pid = sup.children[0].pid;

    // Send 3 messages: child will count to 3 and stop
    for _ in 0..3 {
        sched.send(child_pid, Message::Json(Json::parse(r#""tick""#).unwrap())).unwrap();
    }
    sched.enqueue(child_pid);

    // Run scheduler ticks until child processes all
    // messages and returns Action::Stop
    for _ in 0..10 {
        sched.tick();
    }

    // Child should have been terminated by Action::Stop
    assert!(
        sched.registry.lookup(&child_pid).is_none(),
        "Child should be terminated after stop_at=3"
    );

    // Supervisor should restart permanent child
    sup.handle_child_exit(&mut sched, child_pid, Reason::Normal, 0);

    assert_eq!(sup.children.len(), 1);
    assert_ne!(sup.children[0].pid, child_pid, "Permanent child should get a new PID");

    // New child should exist in registry
    let new_pid = sup.children[0].pid;
    assert!(
        sched.registry.lookup(&new_pid).is_some(),
        "Restarted child should exist in registry"
    );
}

#[test]
fn test_multiple_processes_fair_scheduling() {
    let mut sched = AgentScheduler::new();
    let behavior = CounterBehavior { stop_at: 1000 };

    // Spawn 3 processes, each with 100 messages
    let mut pids = Vec::new();
    for _ in 0..3 {
        let pid = sched.registry.spawn(behavior.clone(), Json::Null).unwrap();
        for i in 0..100 {
            sched.send(pid, Message::Json(Json::parse(&format!("{}", i)).unwrap())).unwrap();
        }
        sched.enqueue(pid);
        pids.push(pid);
    }

    // Run 10 ticks: each process should get some time
    for _ in 0..10 {
        sched.tick();
    }

    // All processes should have made progress.
    for pid in &pids {
        if let Some(proc) = sched.registry.lookup(pid) {
            assert!(!proc.has_messages(), "Process {:?} should have drained mailbox", pid);
        }
    }
}

#[test]
fn test_supervisor_restart_cycle() {
    let spec = SupervisorSpec {
        strategy: RestartStrategy::OneForOne,
        max_restarts: 3,
        max_seconds: 60,
        children: vec![child("fast_crash", 1, ChildRestart::Permanent)],
    };

    let mut sched = AgentScheduler::new();
    let mut sup = Supervisor::start(&mut sched, spec).unwrap();

    // Crash the child 4 times: exceeds max_restarts=3
    for round in 0..4u64 {
        if sup.is_shutdown() {
            break;
        }
        let pid = sup.children[0].pid;

        // Send message, tick to trigger Action::Stop
        sched.send(pid, Message::Text("crash".to_string())).unwrap();
        sched.enqueue(pid);
        sched.tick();

        // Notify supervisor of the exit
        let reason = Reason::Custom(format!("crash_{}", round));
        sup.handle_child_exit(&mut sched, pid, reason, round as u128 * SECOND);
    }

    assert!(
        sup.is_shutdown(),
        "Supervisor should shut down after exceeding max_restarts"
    );
}

#[test]
fn test_linked_processes_cascade_through_supervisor() {
    let spec = SupervisorSpec {
        strategy: RestartStrategy::OneForAll,
        max_restarts: 5,
        max_seconds: 60,
        children: vec![
            child("worker_a", 1000, ChildRestart::Permanent),
            child("worker_b", 1000, ChildRestart::Permanent),
        ],
    };

    let mut sched = AgentScheduler::new();
    let mut sup = Supervisor::start(&mut sched, spec).unwrap();

    let pid_a = sup.children[0].pid;
    let pid_b = sup.children[1].pid;

    // Kill worker_a: OneForAll should restart both
    sup.handle_child_exit(&mut sched, pid_a, Reason::Custom("crash".to_string()), 0);

    assert_eq!(sup.children.len(), 2);
    let new_a = sup.children[0].pid;
    let new_b = sup.children[1].pid;
    assert_ne!(new_a, pid_a);
    assert_ne!(new_b, pid_b);

    // New processes should be runnable
    assert_eq!(sched.registry.lookup(&new_a).unwrap().status, ProcessStatus::Runnable);
    assert_eq!(sched.registry.lookup(&new_b).unwrap().status, ProcessStatus::Runnable);
}

#[test]
fn restarts_outside_the_window_are_forgotten() {
    let spec = SupervisorSpec {
        strategy: RestartStrategy::OneForOne,
        max_restarts: 1,
        max_seconds: 10,
        children: vec![child("c", 1000, ChildRestart::Permanent)],
    };
    let mut sched = AgentScheduler::new();
    let mut sup = Supervisor::start(&mut sched, spec).unwrap();
    for round in 0..5u64 {
        let pid = sup.children[0].pid;
        let now = round as u128 * 20 * SECOND;
        sup.handle_child_exit(&mut sched, pid, Reason::Shutdown, now);
        assert!(!sup.is_shutdown());
    }
}

#[test]
fn children_that_end_well_stay_away() {
    let spec = SupervisorSpec {
        strategy: RestartStrategy::OneForOne,
        max_restarts: 5,
        max_seconds: 10,
        children: vec![
            child("transient", 1000, ChildRestart::Transient),
            child("temporary", 1000, ChildRestart::Temporary),
            child("permanent", 1000, ChildRestart::Permanent),
        ],
    };
    let mut sched = AgentScheduler::new();
    let mut sup = Supervisor::start(&mut sched, spec).unwrap();
    let pids = sup.children_pids();
    sup.handle_child_exit(&mut sched, pids[0], Reason::Normal, 0);
    assert_eq!(sup.children_pids(), vec![pids[1], pids[2]]);
    sup.handle_child_exit(&mut sched, pids[1], Reason::Custom("x".to_string()), 0);
    assert_eq!(sup.children_pids(), vec![pids[2]]);
    sup.handle_child_exit(&mut sched, AgentPid::from_raw(1), Reason::Normal, 0);
    assert_eq!(sup.children_pids(), vec![pids[2]]);
}

#[test]
fn the_rest_is_restarted_in_order() {
    let spec = SupervisorSpec {
        strategy: RestartStrategy::RestForOne,
        max_restarts: 5,
        max_seconds: 10,
        children: vec![
            child("a", 1000, ChildRestart::Permanent),
            child("b", 1000, ChildRestart::Permanent),
            child("c", 1000, ChildRestart::Permanent),
        ],
    };
    let mut sched = AgentScheduler::new();
    let mut sup = Supervisor::start(&mut sched, spec).unwrap();
    let pids = sup.children_pids();
    sup.handle_child_exit(&mut sched, pids[1], Reason::Custom("x".to_string()), 0);
    let after = sup.children_pids();
    assert_eq!(after[0], pids[0]);
    assert_ne!(after[1], pids[1]);
    assert_ne!(after[2], pids[2]);
    assert_eq!(sup.children[1].id, "b");
    assert_eq!(sup.children[2].id, "c");
    assert!(sched.registry.lookup(&pids[2]).is_none());
}
