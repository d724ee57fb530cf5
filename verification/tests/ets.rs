use erlangrt::agent_rt::ets::{AccessType, EtsRegistry, TableId, TableIdSource};
use erlangrt::agent_rt::types::{AgentPid, PidSource};
use erlangrt::json::Json;

fn json(text: &str) -> Json {
    Json::parse(text).unwrap()
}

#[test]
fn test_create_and_get() {
    let mut reg = EtsRegistry::new(256, 100_000);
    let mut pids = PidSource::new();
    let owner = AgentPid::new(&mut pids);
    let tid = reg
        .create("test", AccessType::Public, owner, None)
        .unwrap();
    reg.put(&tid, "key1", &json(r#""value1""#), owner)
        .unwrap();
    let val = reg.get(&tid, "key1").unwrap();
    assert_eq!(val, Some(json(r#""value1""#)));
}

#[test]
fn test_delete_key() {
    let mut reg = EtsRegistry::new(256, 100_000);
    let mut pids = PidSource::new();
    let owner = AgentPid::new(&mut pids);
    let tid = reg
        .create("test", AccessType::Public, owner, None)
        .unwrap();
    reg.put(&tid, "k", &json(r#"42"#), owner).unwrap();
    reg.delete_key(&tid, "k", owner).unwrap();
    assert_eq!(reg.get(&tid, "k").unwrap(), None);
}

#[test]
fn test_count_and_keys() {
    let mut reg = EtsRegistry::new(256, 100_000);
    let mut pids = PidSource::new();
    let owner = AgentPid::new(&mut pids);
    let tid = reg
        .create("t", AccessType::Public, owner, None)
        .unwrap();
    reg.put(&tid, "a", &json(r#"1"#), owner).unwrap();
    reg.put(&tid, "b", &json(r#"2"#), owner).unwrap();
    assert_eq!(reg.count(&tid).unwrap(), 2);
    let mut keys = reg.keys(&tid).unwrap();
    keys.sort();
    assert_eq!(keys, vec!["a", "b"]);
}

#[test]
fn test_destroy_table() {
    let mut reg = EtsRegistry::new(256, 100_000);
    let mut pids = PidSource::new();
    let owner = AgentPid::new(&mut pids);
    let tid = reg
        .create("t", AccessType::Public, owner, None)
        .unwrap();
    reg.destroy(&tid, owner).unwrap();
    assert!(reg.get(&tid, "k").is_err());
}

#[test]
fn test_destroy_non_owner_fails() {
    let mut reg = EtsRegistry::new(256, 100_000);
    let mut pids = PidSource::new();
    let owner = AgentPid::new(&mut pids);
    let other = AgentPid::new(&mut pids);
    let tid = reg
        .create("t", AccessType::Public, owner, None)
        .unwrap();
    assert!(reg.destroy(&tid, other).is_err());
}

#[test]
fn test_max_tables_enforced() {
    let mut reg = EtsRegistry::new(2, 100_000);
    let mut pids = PidSource::new();
    let owner = AgentPid::new(&mut pids);
    reg.create("t1", AccessType::Public, owner, None).unwrap();
    reg.create("t2", AccessType::Public, owner, None).unwrap();
    assert!(
        reg.create("t3", AccessType::Public, owner, None).is_err()
    );
}

#[test]
fn test_max_entries_enforced() {
    let mut reg = EtsRegistry::new(256, 2);
    let mut pids = PidSource::new();
    let owner = AgentPid::new(&mut pids);
    let tid = reg
        .create("t", AccessType::Public, owner, None)
        .unwrap();
    reg.put(&tid, "a", &json(r#"1"#), owner).unwrap();
    reg.put(&tid, "b", &json(r#"2"#), owner).unwrap();
    assert!(
        reg.put(&tid, "c", &json(r#"3"#), owner).is_err()
    );
}

#[test]
fn readers_and_writers_are_told_apart() {
    let mut reg = EtsRegistry::new(8, 8);
    let mut pids = PidSource::new();
    let owner = AgentPid::new(&mut pids);
    let other = AgentPid::new(&mut pids);
    let tid = reg.create("t", AccessType::Protected, owner, None).unwrap();
    reg.put(&tid, "k", &json("1"), owner).unwrap();
    assert!(reg.put(&tid, "k", &json("2"), other).is_err());
    assert_eq!(reg.get(&tid, "k").unwrap(), Some(json("1")));
    // A key that is there can be replaced even where the table is full.
    assert_eq!(reg.count(&tid).unwrap(), 1);
}

#[test]
fn what_is_put_is_got() {
    let mut reg = EtsRegistry::new(8, 8);
    let owner = AgentPid::from_raw(1);
    let a = reg.create("a", AccessType::Public, owner, None).unwrap();
    let b = reg.create("b", AccessType::Public, owner, None).unwrap();
    reg.put(&a, "k", &json("1"), owner).unwrap();
    reg.put(&a, "l", &json("2"), owner).unwrap();
    reg.put(&a, "k", &json("3"), owner).unwrap();
    assert_eq!(reg.get(&a, "k").unwrap(), Some(json("3")));
    assert_eq!(reg.get(&a, "l").unwrap(), Some(json("2")));
    assert_eq!(reg.get(&b, "k").unwrap(), None);
    reg.delete_key(&a, "k", owner).unwrap();
    assert_eq!(reg.get(&a, "k").unwrap(), None);
    assert_eq!(reg.keys(&a).unwrap(), vec!["l".to_string()]);
    reg.destroy(&a, owner).unwrap();
    assert!(reg.get(&a, "l").is_err());
}

#[test]
fn registries_with_sources_of_their_own_give_out_different_ids() {
    let owner = AgentPid::from_raw(1);
    let mut a = EtsRegistry::with_ids(4, 4, TableIdSource::starting_at(1));
    let mut b = EtsRegistry::with_ids(4, 4, TableIdSource::starting_at(100));
    let x = a.create("t", AccessType::Public, owner, None).unwrap();
    let y = b.create("t", AccessType::Public, owner, None).unwrap();
    assert_eq!(x, TableId::Ets(1));
    assert_eq!(y, TableId::Ets(100));
}
