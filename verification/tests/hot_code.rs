use erlangrt::agent_rt::hot_code::HotCodeRegistry;
use erlangrt::agent_rt::types::AgentPid;

/// Makes behaviors that echo.
struct EchoFactory;

#[test]
fn test_register_behavior() {
    let mut reg = HotCodeRegistry::new();
    reg.register("echo", "v1", EchoFactory);
    let versions = reg.list_versions("echo");
    assert_eq!(versions, vec!["v1"]);
}

#[test]
fn test_register_multiple_versions() {
    let mut reg = HotCodeRegistry::new();
    reg.register("echo", "v1", EchoFactory);
    reg.register("echo", "v2", EchoFactory);
    let versions = reg.list_versions("echo");
    assert_eq!(versions, vec!["v1", "v2"]);
}

#[test]
fn test_list_versions_unknown() {
    let reg: HotCodeRegistry<EchoFactory> = HotCodeRegistry::new();
    assert!(reg.list_versions("unknown").is_empty());
}

#[test]
fn test_track_process_version() {
    let mut reg = HotCodeRegistry::new();
    let pid = AgentPid::from_raw(1);
    reg.register("echo", "v1", EchoFactory);
    reg.set_process_version(pid, "echo", "v1");
    assert_eq!(
        reg.current_version(pid),
        Some(("echo".to_string(), "v1".to_string()))
    );
}

#[test]
fn test_untrack_process() {
    let mut reg: HotCodeRegistry<EchoFactory> = HotCodeRegistry::new();
    let pid = AgentPid::from_raw(1);
    reg.set_process_version(pid, "echo", "v1");
    reg.remove_process(pid);
    assert_eq!(reg.current_version(pid), None);
}

#[test]
fn test_upgrade_process() {
    let mut reg = HotCodeRegistry::new();
    let pid = AgentPid::from_raw(1);
    reg.register("echo", "v1", EchoFactory);
    reg.register("echo", "v2", EchoFactory);
    reg.set_process_version(pid, "echo", "v1");

    let report = reg.prepare_upgrade(pid, "v2");
    assert!(report.is_ok());
    let (old_vsn, _factory) = report.unwrap();
    assert_eq!(old_vsn, "v1");
    reg.set_process_version(pid, "echo", "v2");
    assert_eq!(
        reg.current_version(pid),
        Some(("echo".to_string(), "v2".to_string()))
    );
}

#[test]
fn test_upgrade_process_unknown_version() {
    let mut reg = HotCodeRegistry::new();
    let pid = AgentPid::from_raw(1);
    reg.register("echo", "v1", EchoFactory);
    reg.set_process_version(pid, "echo", "v1");

    let report = reg.prepare_upgrade(pid, "v99");
    assert!(report.is_err());
}

#[test]
fn test_rollback_process() {
    let mut reg = HotCodeRegistry::new();
    let pid = AgentPid::from_raw(1);
    reg.register("echo", "v1", EchoFactory);
    reg.register("echo", "v2", EchoFactory);
    reg.set_process_version(pid, "echo", "v1");
    reg.push_version_history(pid, "v1");
    reg.set_process_version(pid, "echo", "v2");

    let rollback = reg.prepare_rollback(pid);
    assert!(rollback.is_ok());
    let (prev_vsn, _factory) = rollback.unwrap();
    assert_eq!(prev_vsn, "v1");
}

#[test]
fn test_upgrade_all_for_behavior() {
    let mut reg = HotCodeRegistry::new();
    let p1 = AgentPid::from_raw(1);
    let p2 = AgentPid::from_raw(2);
    let p3 = AgentPid::from_raw(3);

    reg.register(
        "worker",
        "v1",
        EchoFactory,
    );
    reg.register(
        "worker",
        "v2",
        EchoFactory,
    );
    reg.register(
        "other",
        "v1",
        EchoFactory,
    );

    reg.set_process_version(p1, "worker", "v1");
    reg.set_process_version(p2, "worker", "v1");
    reg.set_process_version(p3, "other", "v1");

    let pids = reg.pids_for_behavior("worker");
    assert_eq!(pids.len(), 2);
    let worker_pids: Vec<AgentPid> =
        pids.iter().map(|(pid, _)| *pid).collect();
    assert!(worker_pids.contains(&p1));
    assert!(worker_pids.contains(&p2));
}

#[test]
fn test_stale_version_detection() {
    let mut reg = HotCodeRegistry::new();
    let pid = AgentPid::from_raw(1);
    reg.register("echo", "v1", EchoFactory);
    reg.register("echo", "v2", EchoFactory);
    reg.register("echo", "v3", EchoFactory);
    reg.set_process_version(pid, "echo", "v1");

    let stale = reg.stale_pids("echo");
    assert!(stale.contains(&pid));
}
