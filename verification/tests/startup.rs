use erlangrt::agent_rt::agent_worker::AgentWorkerBehavior;
use erlangrt::agent_rt::config::AgentConfig;
use erlangrt::agent_rt::process::ProcessStatus;
use erlangrt::agent_rt::scheduler::AgentScheduler;
use erlangrt::agent_rt::startup::spawn_configured_agents;

fn agent(name: &str, provider: &str, auto_start: bool) -> AgentConfig {
    AgentConfig {
        name: name.to_string(),
        provider: provider.to_string(),
        model: None,
        system_prompt: None,
        tools: vec![],
        auto_start,
        max_iterations: None,
        timeout_ms: None,
    }
}

fn scheduler() -> AgentScheduler<AgentWorkerBehavior> {
    AgentScheduler::new()
}

#[test]
fn test_spawn_configured_agents_empty() {
    let mut scheduler = scheduler();
    let result = spawn_configured_agents(&mut scheduler, &vec![]);
    assert!(result.is_ok());
    assert_eq!(result.unwrap().len(), 0);
}

#[test]
fn test_spawn_configured_agents_auto_start_true() {
    let mut scheduler = scheduler();
    let agents = vec![agent("test-agent", "openrouter", true)];
    let result = spawn_configured_agents(&mut scheduler, &agents).unwrap();
    assert_eq!(result.len(), 1);
    assert_eq!(result[0].1, "test-agent");
    // Verify process is registered by name
    let pid = scheduler.registry.lookup_name("test-agent");
    assert!(pid.is_some());
    assert_eq!(pid.unwrap(), result[0].0);
}

#[test]
fn test_spawn_configured_agents_skips_auto_start_false() {
    let mut scheduler = scheduler();
    let agents = vec![agent("active", "openrouter", true), agent("inactive", "openai", false)];
    let result = spawn_configured_agents(&mut scheduler, &agents).unwrap();
    assert_eq!(result.len(), 1);
    assert_eq!(result[0].1, "active");
    assert!(scheduler.registry.lookup_name("inactive").is_none());
}

#[test]
fn test_spawn_configured_agents_enqueues_processes() {
    let mut scheduler = scheduler();
    let agents = vec![agent("worker", "openrouter", true)];
    let spawned = spawn_configured_agents(&mut scheduler, &agents).unwrap();
    let pid = spawned[0].0;
    // Process should be in the registry and runnable
    let proc = scheduler.registry.lookup(&pid).unwrap();
    assert_eq!(proc.status, ProcessStatus::Runnable);
}
