use erlangrt::agent_rt::checkpoint::InMemoryCheckpointStore;
use erlangrt::agent_rt::orchestration::{
    build_llm_request_from_task, checkpoint_key, extract_tasks, io_result_to_value,
    reason_to_value, OrchestratorBehavior, OrchestratorState, StoreOp, WorkerBehavior,
};
use erlangrt::agent_rt::process::ProcessStatus;
use erlangrt::agent_rt::roles::{Role, RoleState};
use erlangrt::agent_rt::scheduler::AgentScheduler;
use erlangrt::agent_rt::types::{Action, AgentPid, IoOp, IoResult, Message, Reason, SystemMsg};
use erlangrt::json::Json;

fn json(text: &str) -> Json {
    Json::parse(text).unwrap()
}

/// Starts an orchestrator with what a store holds for it.
fn start(
    behavior: &OrchestratorBehavior,
    args: Json,
    store: &InMemoryCheckpointStore,
) -> OrchestratorState {
    let loaded = store.load(&checkpoint_key(&args));
    behavior.init_with(&args, loaded)
}

/// Does to a store what an orchestrator asks for.
fn apply(state: &mut OrchestratorState, store: &mut InMemoryCheckpointStore) {
    for op in state.take_store_ops() {
        match op {
            StoreOp::Save { key, checkpoint } => store.save(&key, &checkpoint, 0),
            StoreOp::Delete { key } => store.delete(&key),
        }
    }
}

#[test]
fn test_orchestrator_goal_triggers_decompose_request() {
    let behavior = OrchestratorBehavior {
        max_concurrency: 2,
        checkpointing: false,
    };
    let mut state = start(&behavior, json(r#"{ "self_pid": 2147483649}"#), &InMemoryCheckpointStore::new());
    let action = behavior.handle_message(
        Message::Json(json(r#"{ "goal": "build release notes", "requester_pid": 2147483650}"#)),
        &mut state,
    );
    match action {
        Action::IoRequest(IoOp::Custom { kind, payload }) => {
            assert_eq!(kind, "decompose_goal");
            assert_eq!(payload.get("goal").unwrap(), &json(r#""build release notes""#));
        }
        _ => panic!("expected decompose IoRequest"),
    }
}

#[test]
fn test_orchestrator_decompose_response_spawns_worker() {
    let behavior = OrchestratorBehavior {
        max_concurrency: 2,
        checkpointing: false,
    };
    let mut state = start(&behavior, json(r#"{ "self_pid": 2147483664}"#), &InMemoryCheckpointStore::new());
    let _ = behavior.handle_message(
        Message::Json(json(r#"{ "goal": "ship feature"}"#)),
        &mut state,
    );
    let action = behavior.handle_message(
        Message::System(SystemMsg::IoResponse {
            correlation_id: 0,
            result: IoResult::Done(json(r#"{ "tasks": [ {"task_id": "t1", "prompt": "part 1"}, {"task_id": "t2", "prompt": "part 2"} ] }"#)),
        }),
        &mut state,
    );
    match action {
        Action::Spawn {
            args,
            link,
            monitor,
            ..
        } => {
            assert_eq!(args.get_u64("parent_pid").unwrap(), 0x8000_0010u64);
            assert_eq!(args.get_str("task_id").unwrap(), "t1");
            assert!(!link);
            assert!(monitor);
        }
        _ => panic!("expected Spawn action"),
    }
}

#[test]
fn test_orchestrator_spawn_result_sends_task_to_child() {
    let behavior = OrchestratorBehavior {
        max_concurrency: 1,
        checkpointing: false,
    };
    let mut state = start(&behavior, json(r#"{ "self_pid": 2147483904}"#), &InMemoryCheckpointStore::new());
    let _ = behavior.handle_message(
        Message::Json(json(r#"{ "goal": "compose"}"#)),
        &mut state,
    );
    let _ = behavior.handle_message(
        Message::System(SystemMsg::IoResponse {
            correlation_id: 0,
            result: IoResult::Done(json(r#"{ "tasks": [{"task_id": "w1", "prompt": "work"}] }"#)),
        }),
        &mut state,
    );
    let action = behavior.handle_message(
        Message::System(SystemMsg::SpawnResult {
            child_pid: 0x8000_0200u64,
            monitor_ref: Some(42),
        }),
        &mut state,
    );
    match action {
        Action::Send { to, msg } => {
            assert_eq!(to.raw(), 0x8000_0200u64);
            match msg {
                Message::Json(v) => {
                    assert_eq!(v.get_str("type").unwrap(), "run_task");
                    assert_eq!(v.get_str("task_id").unwrap(), "w1");
                }
                _ => panic!("expected json task message"),
            }
        }
        _ => panic!("expected task send to child"),
    }
}

#[test]
fn test_worker_run_task_and_send_result() {
    let behavior = WorkerBehavior;
    let mut state = behavior.init(&json(r#"{ "parent_pid": 2147484416, "task_id": "fallback"}"#)).unwrap();
    let action = behavior.handle_message(
        Message::Json(json(r#"{ "type": "run_task", "worker_pid": 2147484672, "task_id": "task-42", "task": {"prompt": "draft summary"}}"#)),
        &mut state,
    );
    match action {
        Action::IoRequest(IoOp::AgentChat {
            provider,
            model,
            prompt,
            ..
        }) => {
            assert_eq!(provider, "openai");
            assert!(model.is_none(), "model should be None when not specified");
            assert_eq!(prompt, "draft summary");
        }
        _ => panic!("expected worker IoRequest with AgentChat"),
    }

    let action = behavior.handle_message(
        Message::System(SystemMsg::IoResponse {
            correlation_id: 1,
            result: IoResult::Done(json(r#"{ "output": "done"}"#)),
        }),
        &mut state,
    );
    match action {
        Action::Send { to, msg } => {
            assert_eq!(to.raw(), 0x8000_0300u64);
            match msg {
                Message::Json(v) => {
                    assert_eq!(v.get_str("type").unwrap(), "worker_result");
                    assert_eq!(v.get_u64("worker_pid").unwrap(), 0x8000_0400u64);
                    assert_eq!(v.get_str("task_id").unwrap(), "task-42");
                    assert_eq!(v.get("result").unwrap().get("ok").unwrap().as_bool(), Some(true));
                }
                _ => panic!("expected worker result json"),
            }
        }
        _ => panic!("expected send result to parent"),
    }
}

#[test]
fn test_orchestrator_survives_worker_crash_via_down() {
    let behavior = OrchestratorBehavior {
        max_concurrency: 1,
        checkpointing: false,
    };
    let mut state = start(&behavior, json(r#"{ "self_pid": 2147485013}"#), &InMemoryCheckpointStore::new());

    let _ = behavior.handle_message(
        Message::Json(json(r#"{ "goal": "recover from crash"}"#)),
        &mut state,
    );
    let _ = behavior.handle_message(
        Message::System(SystemMsg::IoResponse {
            correlation_id: 1,
            result: IoResult::Done(json(r#"{ "tasks": [{"task_id": "crashy"}] }"#)),
        }),
        &mut state,
    );
    let _ = behavior.handle_message(
        Message::System(SystemMsg::SpawnResult {
            child_pid: 0x8000_0666u64,
            monitor_ref: Some(999),
        }),
        &mut state,
    );

    let action = behavior.handle_message(
        Message::System(SystemMsg::Down {
            monitor_ref: 999,
            pid: 0x8000_0666u64,
            reason: Reason::Custom("panic".to_string()),
        }),
        &mut state,
    );

    // No crash / panic path: orchestrator handles DOWN and
    // moves to completion behavior.
    assert!(matches!(action, Action::Stop(Reason::Normal)));
        assert_eq!(state.results().len(), 1);
    assert_eq!(state.results()[0].get_str("type").unwrap(), "worker_error");
}

#[test]
fn test_orchestrator_persists_checkpoint_after_worker_result() {
    let mut store = InMemoryCheckpointStore::new();
    let behavior = OrchestratorBehavior {
        max_concurrency: 1,
        checkpointing: true,
    };

    let mut state = start(&behavior, json(r#"{ "self_pid": 2147485559, "checkpoint_key": "orch-checkpoint-a"}"#), &InMemoryCheckpointStore::new());

    let _ = behavior.handle_message(
        Message::Json(json(r#"{ "goal": "checkpoint this"}"#)),
        &mut state,
    );
    let _ = behavior.handle_message(
        Message::System(SystemMsg::IoResponse {
            correlation_id: 0,
            result: IoResult::Done(json(r#"{ "tasks": [{"task_id": "cp-1", "prompt": "do work"}] }"#)),
        }),
        &mut state,
    );
    let _ = behavior.handle_message(
        Message::System(SystemMsg::SpawnResult {
            child_pid: 0x8000_0888u64,
            monitor_ref: Some(1),
        }),
        &mut state,
    );

    let action = behavior.handle_message(
        Message::Json(json(r#"{ "type": "worker_result", "worker_pid": 2147485832, "task_id": "cp-1", "result": {"ok": true, "value": {"status": 200}}}"#)),
        &mut state,
    );
    assert!(matches!(action, Action::Send { .. }));

    apply(&mut state, &mut store);
    let checkpoint = store.load("orch-checkpoint-a").unwrap();
    assert_eq!(checkpoint.get("goal").unwrap(), &json(r#""checkpoint this""#));
    assert_eq!(
        checkpoint.get("completed_results").unwrap().as_array().unwrap().len(),
        1,
        "worker result should be persisted"
    );
}

#[test]
fn test_orchestrator_resumes_from_checkpoint_and_skips_decompose() {
    let mut store = InMemoryCheckpointStore::new();
    store.save("orch-checkpoint-b", &json(r#"{ "goal": "resume-goal", "completed_results": [{"type":"worker_result","task_id":"done-1"}], "pending_tasks": [{"task_id":"todo-1","prompt":"resume me"}]}"#), 0);

    let behavior = OrchestratorBehavior {
        max_concurrency: 1,
        checkpointing: true,
    };
    let mut state = start(&behavior, json(r#"{ "self_pid": 2147486105, "checkpoint_key": "orch-checkpoint-b"}"#), &store);

    let action = behavior.handle_message(
        Message::Json(json(r#"{ "goal": "resume-goal"}"#)),
        &mut state,
    );

    match action {
        Action::Spawn { args, .. } => {
            assert_eq!(args.get_str("task_id").unwrap(), "todo-1");
        }
        _ => panic!("expected Spawn from resumed checkpoint, got non-spawn action"),
    }
}

#[test]
fn tasks_are_found_in_a_decomposition() {
    let goal = json(r#""g""#);
    let of = |text: &str| extract_tasks(&goal, &IoResult::Done(json(text)));
    assert_eq!(of(r#"{"tasks": [1, 2]}"#).len(), 2);
    assert_eq!(of(r#"{"payload": {"tasks": [1]}}"#).len(), 1);
    let single = json(r#"{"task_id": "task-0", "goal": "g"}"#);
    assert_eq!(of(r#"{"tasks": []}"#), vec![single.clone()]);
    assert_eq!(extract_tasks(&goal, &IoResult::Timeout), vec![single]);
}

#[test]
fn reports_tell_what_happened() {
    assert_eq!(io_result_to_value(IoResult::Timeout), json(r#"{"ok": false, "error": "timeout"}"#));
    assert_eq!(
        io_result_to_value(IoResult::Error("e".to_string())),
        json(r#"{"ok": false, "error": "e"}"#)
    );
    assert_eq!(reason_to_value(Reason::Normal).as_str().unwrap(), "normal");
}

#[test]
fn a_task_without_words_is_its_own_prompt() {
    match build_llm_request_from_task(&json(r#"{"task_id": "t", "tools": ["a", 1], "max_iterations": 4}"#)) {
        IoOp::AgentChat { provider, prompt, tools, max_iterations, .. } => {
            assert_eq!(provider, "openai");
            assert_eq!(prompt, r#"{"max_iterations":4,"task_id":"t","tools":["a",1]}"#);
            assert_eq!(tools, Some(vec!["a".to_string()]));
            assert_eq!(max_iterations, Some(4));
        }
        _ => panic!("expected a conversation"),
    }
}

#[test]
fn no_more_workers_than_allowed() {
    let behavior = OrchestratorBehavior { max_concurrency: 2, checkpointing: false };
    let mut state = start(&behavior, json(r#"{"self_pid": 9}"#), &InMemoryCheckpointStore::new());
    behavior.handle_message(Message::Json(json(r#"{"goal": "g"}"#)), &mut state);
    let mut action = behavior.handle_message(
        Message::System(SystemMsg::IoResponse {
            correlation_id: 0,
            result: IoResult::Done(json(r#"{"tasks": [{"task_id": "a"}, {"task_id": "b"}, {"task_id": "c"}]}"#)),
        }),
        &mut state,
    );
    let mut workers = 0;
    for pid in 100..110 {
        if !matches!(action, Action::Spawn { .. }) {
            break;
        }
        workers += 1;
        action = behavior.handle_message(
            Message::System(SystemMsg::SpawnResult { child_pid: pid, monitor_ref: None }),
            &mut state,
        );
        assert!(matches!(action, Action::Send { .. }));
        action = behavior.next_or_finalize(&mut state);
    }
    assert_eq!(workers, 2);
    assert!(!state.can_spawn_more(2));
    assert!(!state.is_complete());
}

fn answer(sched: &mut AgentScheduler<Role>, pid: AgentPid, text: &str) {
    let result = IoResult::Done(json(text));
    let msg = Message::System(SystemMsg::IoResponse { correlation_id: 0, result });
    sched.send(pid, msg).unwrap();
    sched.enqueue(pid);
    sched.tick();
}

#[test]
fn an_orchestration_runs_in_a_scheduler() {
    let mut sched = AgentScheduler::new();
    let role = Role::Orchestrator {
        behavior: OrchestratorBehavior { max_concurrency: 1, checkpointing: true },
        checkpoint: None,
    };
    let pid = sched.registry.spawn(role, json("{}")).unwrap();
    let goal = json(&format!(r#"{{"goal": "g", "self_pid": {}}}"#, pid.raw()));
    sched.send(pid, Message::Json(goal)).unwrap();
    sched.enqueue(pid);
    assert!(sched.tick());
    assert_eq!(sched.registry.lookup(&pid).unwrap().status, ProcessStatus::Waiting);
    answer(&mut sched, pid, r#"{"tasks": [{"task_id": "t"}]}"#);
    // The worker is there, and knows whom it works for.
    assert_eq!(sched.registry.count(), 2);
    let worker = sched.registry.pids().into_iter().find(|p| *p != pid).unwrap();
    match sched.registry.lookup(&worker).unwrap().state.as_ref() {
        Some(RoleState::Worker(_)) => {}
        _ => panic!("expected a worker"),
    }
    assert!(matches!(
        sched.registry.spawn(Role::Worker(WorkerBehavior), Json::Null),
        Err(Reason::Custom(e)) if e == "worker init requires parent_pid"
    ));
}
