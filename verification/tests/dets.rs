use erlangrt::agent_rt::dets::{DetsFiles, DetsTable};
use erlangrt::agent_rt::ets::AccessType;
use erlangrt::agent_rt::types::{AgentPid, PidSource};
use erlangrt::json::Json;

fn json(text: &str) -> Json {
    Json::parse(text).unwrap()
}


#[test]
fn test_dets_roundtrip() {
    let mut files = DetsFiles { dat: None, log: vec![] };
    let mut pids = PidSource::new();
    let owner = AgentPid::new(&mut pids);
    let mut table = DetsTable::open(
        "test",
        &files,
        AccessType::Public,
        owner,
        None,
        100_000,
        100,
    )
    .unwrap();
    table
        .put(&mut files, "key1", &json(r#""val1""#), owner)
        .unwrap();
    assert_eq!(
        table.get("key1", owner).unwrap(),
        Some(json(r#""val1""#))
    );
    table.close();

    // Reopen and verify persistence
    let table = DetsTable::open(
        "test",
        &files,
        AccessType::Public,
        owner,
        None,
        100_000,
        100,
    )
    .unwrap();
    assert_eq!(
        table.get("key1", owner).unwrap(),
        Some(json(r#""val1""#))
    );
}

#[test]
fn test_dets_delete_persists() {
    let mut files = DetsFiles { dat: None, log: vec![] };
    let mut pids = PidSource::new();
    let owner = AgentPid::new(&mut pids);
    let mut table = DetsTable::open(
        "test",
        &files,
        AccessType::Public,
        owner,
        None,
        100_000,
        100,
    )
    .unwrap();
    table.put(&mut files, "k", &json(r#"42"#), owner).unwrap();
    table.delete_key(&mut files, "k", owner).unwrap();
    table.close();

    let table = DetsTable::open(
        "test",
        &files,
        AccessType::Public,
        owner,
        None,
        100_000,
        100,
    )
    .unwrap();
    assert_eq!(table.get("k", owner).unwrap(), None);
}

#[test]
fn test_dets_capacity_limit() {
    let mut files = DetsFiles { dat: None, log: vec![] };
    let mut pids = PidSource::new();
    let owner = AgentPid::new(&mut pids);
    let mut table = DetsTable::open(
        "test",
        &files,
        AccessType::Public,
        owner,
        None,
        2,
        100,
    )
    .unwrap();
    table.put(&mut files, "a", &json(r#"1"#), owner).unwrap();
    table.put(&mut files, "b", &json(r#"2"#), owner).unwrap();
    assert!(table.put(&mut files, "c", &json(r#"3"#), owner).is_err());
}

#[test]
fn test_dets_compaction() {
    let mut files = DetsFiles { dat: None, log: vec![] };
    let mut pids = PidSource::new();
    let owner = AgentPid::new(&mut pids);
    let mut table = DetsTable::open(
        "test",
        &files,
        AccessType::Public,
        owner,
        None,
        100_000,
        3,
    )
    .unwrap();
    // 3 mutations triggers compaction
    table.put(&mut files, "a", &json(r#"1"#), owner).unwrap();
    table.put(&mut files, "b", &json(r#"2"#), owner).unwrap();
    table.put(&mut files, "c", &json(r#"3"#), owner).unwrap(); // triggers compact
    table.close();

    // After compaction, .log should be empty/gone, .dat has all data
    let table = DetsTable::open(
        "test",
        &files,
        AccessType::Public,
        owner,
        None,
        100_000,
        3,
    )
    .unwrap();
    assert_eq!(table.get("a", owner).unwrap(), Some(json(r#"1"#)));
    assert_eq!(table.get("b", owner).unwrap(), Some(json(r#"2"#)));
    assert_eq!(table.get("c", owner).unwrap(), Some(json(r#"3"#)));
}

#[test]
fn test_dets_recovery_from_dat_plus_log() {
    let mut files = DetsFiles { dat: None, log: vec![] };
    let mut pids = PidSource::new();
    let owner = AgentPid::new(&mut pids);
    let mut table = DetsTable::open(
        "test",
        &files,
        AccessType::Public,
        owner,
        None,
        100_000,
        100,
    )
    .unwrap();
    table.put(&mut files, "a", &json(r#"1"#), owner).unwrap();
    // Force compact to write .dat
    table.compact(&mut files);
    // Add more entries (goes to .log only)
    table.put(&mut files, "b", &json(r#"2"#), owner).unwrap();
    drop(table); // simulate crash -- no close()

    // Recovery: load .dat + replay .log
    let table = DetsTable::open(
        "test",
        &files,
        AccessType::Public,
        owner,
        None,
        100_000,
        100,
    )
    .unwrap();
    assert_eq!(table.get("a", owner).unwrap(), Some(json(r#"1"#)));
    assert_eq!(table.get("b", owner).unwrap(), Some(json(r#"2"#)));
}

#[test]
fn test_dets_scan_and_filter() {
    let mut files = DetsFiles { dat: None, log: vec![] };
    let mut pids = PidSource::new();
    let owner = AgentPid::new(&mut pids);
    let mut table = DetsTable::open(
        "test",
        &files,
        AccessType::Public,
        owner,
        None,
        100_000,
        100,
    )
    .unwrap();
    table
        .put(&mut files, "user:1", &json(r#"{"age": 25}"#), owner)
        .unwrap();
    table
        .put(&mut files, "user:2", &json(r#"{"age": 30}"#), owner)
        .unwrap();
    table
        .put(&mut files, "task:1", &json(r#"{"done": true}"#), owner)
        .unwrap();

    let users = table.scan("user:", owner).unwrap();
    assert_eq!(users.len(), 2);

    let older = table
        .filter(owner, |_k: &str, v: &Json| {
            v.get("age")
                .and_then(|a| a.as_i64())
                .map_or(false, |a| a > 27)
        })
        .unwrap();
    assert_eq!(older.len(), 1);
}

#[test]
fn test_dets_private_read_access() {
    let mut files = DetsFiles { dat: None, log: vec![] };
    let mut pids = PidSource::new();
    let owner = AgentPid::new(&mut pids);
    let other = AgentPid::new(&mut pids);
    let mut table = DetsTable::open(
        "test",
        &files,
        AccessType::Private,
        owner,
        None,
        100_000,
        100,
    )
    .unwrap();
    table.put(&mut files, "k", &json(r#"1"#), owner).unwrap();
    // Other cannot read
    assert!(table.get("k", other).is_err());
    assert!(table.scan("", other).is_err());
    assert!(table.filter(other, |_k: &str, _v: &Json| true).is_err());
    assert!(table.count(other).is_err());
    // Owner can read
    assert!(table.get("k", owner).is_ok());
    assert!(table.scan("", owner).is_ok());
    assert!(table.filter(owner, |_k: &str, _v: &Json| true).is_ok());
    assert!(table.count(owner).is_ok());
}

#[test]
fn test_dets_protected_read_access() {
    let mut files = DetsFiles { dat: None, log: vec![] };
    let mut pids = PidSource::new();
    let owner = AgentPid::new(&mut pids);
    let other = AgentPid::new(&mut pids);
    let mut table = DetsTable::open(
        "test",
        &files,
        AccessType::Protected,
        owner,
        None,
        100_000,
        100,
    )
    .unwrap();
    table.put(&mut files, "k", &json(r#"1"#), owner).unwrap();
    // Other can read (Protected)
    assert!(table.get("k", other).is_ok());
    // Other cannot write
    assert!(table.put(&mut files, "k2", &json(r#"2"#), other).is_err());
}

#[test]
fn test_dets_schema_version_header() {
    let mut files = DetsFiles { dat: None, log: vec![] };
    let mut pids = PidSource::new();
    let owner = AgentPid::new(&mut pids);
    let mut table = DetsTable::open(
        "test",
        &files,
        AccessType::Public,
        owner,
        None,
        100_000,
        100,
    )
    .unwrap();
    table.put(&mut files, "k", &json(r#"1"#), owner).unwrap();
    table.compact(&mut files);

    // Verify .dat starts with schema header
    let first_line = json(&files.dat.unwrap()[0]);
    assert_eq!(first_line.get_u64("schema_version"), Some(1));
    assert_eq!(first_line.get_str("type").unwrap(), "dets");
}

fn fresh(files: &DetsFiles) -> DetsTable {
    DetsTable::open("t", files, AccessType::Public, AgentPid::from_raw(1), None, 100, 100).unwrap()
}

fn deep(levels: usize) -> Json {
    let mut v = Json::Null;
    for _ in 0..levels {
        v = Json::Array(vec![v]);
    }
    v
}

#[test]
fn null_and_deep_values_come_back() {
    let owner = AgentPid::from_raw(1);
    let mut files = DetsFiles { dat: None, log: vec![] };
    let mut table = fresh(&files);
    table.put(&mut files, "null", &Json::Null, owner).unwrap();
    table.put(&mut files, "deep", &deep(126), owner).unwrap();
    for _ in 0..2 {
        let again = fresh(&files);
        assert_eq!(again.count(owner).unwrap(), 2);
        assert_eq!(again.get("null", owner).unwrap(), Some(Json::Null));
        assert_eq!(again.get("deep", owner).unwrap(), Some(deep(126)));
        table.compact(&mut files);
    }
}

#[test]
fn records_have_their_members_in_order() {
    let owner = AgentPid::from_raw(1);
    let mut files = DetsFiles { dat: None, log: vec![] };
    let mut table = fresh(&files);
    table.put(&mut files, "k", &json(r#"{"b": 1, "a": 2}"#), owner).unwrap();
    table.delete_key(&mut files, "x", owner).unwrap();
    assert_eq!(files.log[0], r#"{"op":"put","key":"k","value":{"a":2,"b":1}}"#);
    assert_eq!(files.log[1], r#"{"op":"delete","key":"x"}"#);
    table.compact(&mut files);
    let dat = files.dat.clone().unwrap();
    assert_eq!(dat[0], r#"{"schema_version":1,"type":"dets","table":"t"}"#);
    assert_eq!(dat[1], r#"{"key":"k","value":{"a":2,"b":1}}"#);
}

#[test]
fn records_may_be_written_as_lists() {
    let owner = AgentPid::from_raw(1);
    let files = DetsFiles {
        dat: Some(vec![r#"[1, "dets", "t"]"#.to_string(), r#"["a", 1]"#.to_string()]),
        log: vec![r#"["put", "b", 2]"#.to_string(), r#"["delete", "a", null]"#.to_string()],
    };
    let table = fresh(&files);
    assert_eq!(table.get("a", owner).unwrap(), None);
    assert_eq!(table.get("b", owner).unwrap(), Some(json("2")));
    let short = DetsFiles { dat: None, log: vec![r#"["delete", "a"]"#.to_string()] };
    assert!(DetsTable::open("t", &short, AccessType::Public, owner, None, 100, 100).is_err());
}

#[test]
fn any_calls_come_back() {
    let owner = AgentPid::from_raw(1);
    let mut files = DetsFiles { dat: None, log: vec![] };
    let mut table = fresh(&files);
    for i in 0..40u64 {
        let key = format!("k{}", i % 7);
        match i % 5 {
            0 => table.delete_key(&mut files, &key, owner).unwrap(),
            3 if i % 2 == 0 => table.compact(&mut files),
            _ => table.put(&mut files, &key, &json(&i.to_string()), owner).unwrap(),
        }
        let again = fresh(&files);
        assert_eq!(again.count(owner).unwrap(), table.count(owner).unwrap());
        for j in 0..7 {
            let k = format!("k{}", j);
            assert_eq!(again.get(&k, owner).unwrap(), table.get(&k, owner).unwrap());
        }
    }
    table.close();
    assert_eq!(fresh(&files).count(owner).unwrap(), table.count(owner).unwrap());
}
