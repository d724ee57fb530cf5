use erlangrt::agent_rt::chaos::{ChaosConfig, FaultConfig, FaultMode, FaultyCheckpointStore};
use erlangrt::agent_rt::checkpoint::InMemoryCheckpointStore;
use erlangrt::json::Json;

fn json(text: &str) -> Json {
    Json::parse(text).unwrap()
}

fn config(fail_below: u32, seed: u64) -> FaultConfig {
    FaultConfig { fail_below, seed, modes: vec![FaultMode::Error] }
}

#[test]
fn test_fault_config_deterministic() {
    let config = config(5000, 42);
    let r1 = config.should_fail(0);
    let r2 = config.should_fail(0);
    assert_eq!(r1, r2, "deterministic with same seed+attempt");
}

#[test]
fn test_fault_config_zero_rate_never_fails() {
    let config = config(0, 42);
    for i in 0..100 {
        assert!(!config.should_fail(i));
    }
}

#[test]
fn test_fault_config_full_rate_always_fails() {
    let config = config(10000, 42);
    for i in 0..100 {
        assert!(config.should_fail(i));
    }
}

#[test]
fn test_faulty_checkpoint_store_injects_failures() {
    let inner = InMemoryCheckpointStore::new();
    let mut store = FaultyCheckpointStore::new(inner, config(10000, 0));
    let result = store.save("key", &json(r#"{"v": 1}"#), 0);
    assert!(result.is_err());
    assert!(result.unwrap_err().text().contains("chaos"));
}

#[test]
fn test_faulty_checkpoint_store_passes_when_no_fault() {
    let inner = InMemoryCheckpointStore::new();
    let mut store = FaultyCheckpointStore::new(inner, config(0, 0));
    store.save("key", &json(r#"{"v": 1}"#), 0).unwrap();
    let loaded = store.load("key").unwrap().unwrap();
    assert_eq!(loaded.get_u64("v"), Some(1));
    store.delete("key").unwrap();
    assert!(store.load("key").unwrap().is_none());
}

#[test]
fn chaos_is_off_unless_it_is_asked_for() {
    assert!(!ChaosConfig::from_vars(None, None, None, None).enabled);
    let c = ChaosConfig::from_vars(Some("true"), Some(10000), Some("7"), Some("error"));
    assert!(c.enabled);
}
