use erlangrt::agent_rt::checkpoint::{prune_cutoff, FileCheckpointStore, InMemoryCheckpointStore};
use erlangrt::json::Json;

fn json(text: &str) -> Json {
    Json::parse(text).unwrap()
}

#[test]
fn test_in_memory_checkpoint_roundtrip() {
    let mut store = InMemoryCheckpointStore::new();
    let key = "orchestrator-a";
    let payload = json(r#"{"goal": "ship", "pending_tasks": [{"task_id": "t1"}]}"#);
    store.save(key, &payload, 0);
    let loaded = store.load(key).unwrap();
    assert_eq!(loaded, payload);
    store.delete(key);
    assert!(store.load(key).is_none());
}

#[test]
fn old_checkpoints_are_pruned() {
    let mut store = InMemoryCheckpointStore::new();
    store.save("old", &json("1"), 10);
    store.save("new", &json("2"), 20);
    assert_eq!(store.list_keys().len(), 2);
    assert_eq!(store.prune_before(15), 1);
    assert!(store.load("old").is_none());
    assert!(store.load("new").is_some());
    assert_eq!(prune_cutoff(100, 30), 70);
}

#[test]
fn names_of_checkpoint_files_are_safe() {
    let store = FileCheckpointStore { dir: "/tmp/c".to_string() };
    let path = store.checkpoint_path("../a b/c");
    assert!(path.starts_with("/tmp/c/"));
    assert!(!path.contains(".."));
    assert!(!path.contains(' '));
}

#[test]
fn without_a_directory_files_are_in_the_working_directory() {
    let at = |dir: &str| FileCheckpointStore { dir: dir.to_string() }.checkpoint_path("k");
    assert_eq!(at(""), "k.json");
    assert_eq!(at("d"), "d/k.json");
    assert_eq!(at("d/"), "d/k.json");
}
