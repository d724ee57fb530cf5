use erlangrt::agent_rt::durable_mailbox::{DurableMailbox, WalFiles};
use erlangrt::agent_rt::types::Message;
use erlangrt::json::Json;


#[test]
fn test_append_and_replay() {
    let mut files = WalFiles { wal: None, ack: None };
    let mut mb = DurableMailbox::open("proc-1", &mut files).unwrap();
    mb.append(&mut files, &Message::Text("hello".to_string()), 0);
    mb.append(&mut files, &Message::Text("world".to_string()), 0);
    drop(mb);

    let mb = DurableMailbox::open("proc-1", &mut files).unwrap();
    let msgs = mb.replay(&files).unwrap();
    assert_eq!(msgs.len(), 2);
    match &msgs[0].msg {
        Message::Text(s) => assert_eq!(s, "hello"),
        _ => panic!("expected Text"),
    }
}

#[test]
fn test_ack_and_replay_skips_acked() {
    let mut files = WalFiles { wal: None, ack: None };
    let mut mb = DurableMailbox::open("proc-2", &mut files).unwrap();
    mb.append(&mut files, &Message::Text("a".to_string()), 0);
    mb.append(&mut files, &Message::Text("b".to_string()), 0);
    mb.append(&mut files, &Message::Text("c".to_string()), 0);
    mb.ack(&mut files, 2); // ack first two
    drop(mb);

    let mb = DurableMailbox::open("proc-2", &mut files).unwrap();
    let msgs = mb.replay(&files).unwrap();
    assert_eq!(msgs.len(), 1); // only "c" remains
    match &msgs[0].msg {
        Message::Text(s) => assert_eq!(s, "c"),
        _ => panic!("expected Text"),
    }
}

#[test]
fn test_truncate_removes_acked() {
    let mut files = WalFiles { wal: None, ack: None };
    let mut mb = DurableMailbox::open("proc-3", &mut files).unwrap();
    mb.append(&mut files, &Message::Text("a".to_string()), 0);
    mb.append(&mut files, &Message::Text("b".to_string()), 0);
    mb.ack(&mut files, 1);
    mb.truncate(&mut files);
    drop(mb);

    // After truncate, WAL only has seq > 1
    let mb = DurableMailbox::open("proc-3", &mut files).unwrap();
    let msgs = mb.replay(&files).unwrap();
    assert_eq!(msgs.len(), 1);
    assert_eq!(msgs[0].seq, 2);
}

#[test]
fn test_sequence_monotonic() {
    let mut files = WalFiles { wal: None, ack: None };
    let mut mb = DurableMailbox::open("proc-4", &mut files).unwrap();
    let s1 = mb.append(&mut files, &Message::Text("a".to_string()), 0);
    let s2 = mb.append(&mut files, &Message::Text("b".to_string()), 0);
    assert_eq!(s1, 1);
    assert_eq!(s2, 2);
}

#[test]
fn test_wal_schema_header() {
    let mut files = WalFiles { wal: None, ack: None };
    let mut mb = DurableMailbox::open("proc-5", &mut files).unwrap();
    mb.append(&mut files, &Message::Text("test".to_string()), 0);
    drop(mb);

    let first_line = Json::parse(&files.wal.unwrap()[0]).unwrap();
    assert_eq!(first_line.get_u64("schema_version"), Some(1));
    assert_eq!(first_line.get_str("type").unwrap(), "wal");
    assert_eq!(first_line.get_str("stable_id").unwrap(), "proc-5");
}

#[test]
fn test_ack_uses_atomic_rename() {
    let mut files = WalFiles { wal: None, ack: None };
    let mut mb = DurableMailbox::open("proc-6", &mut files).unwrap();
    mb.append(&mut files, &Message::Text("a".to_string()), 0);
    mb.ack(&mut files, 1);

    // The file that names the last message dealt with should be there
    assert_eq!(files.ack.unwrap().trim(), "1");
}

#[test]
fn test_reopen_preserves_sequence() {
    let mut files = WalFiles { wal: None, ack: None };
    let mut mb = DurableMailbox::open("proc-7", &mut files).unwrap();
    mb.append(&mut files, &Message::Text("a".to_string()), 0);
    mb.append(&mut files, &Message::Text("b".to_string()), 0);
    drop(mb);

    let mut mb = DurableMailbox::open("proc-7", &mut files).unwrap();
    let s3 = mb.append(&mut files, &Message::Text("c".to_string()), 0);
    assert_eq!(s3, 3); // continues from last seq
}

#[test]
fn numbering_goes_on_after_everything_was_dealt_with() {
    let mut files = WalFiles { wal: None, ack: None };
    let mut mb = DurableMailbox::open("p", &mut files).unwrap();
    assert_eq!(mb.append(&mut files, &Message::Text("a".to_string()), 0), 1);
    mb.ack(&mut files, 1);
    mb.truncate(&mut files);
    drop(mb);

    let mut mb = DurableMailbox::open("p", &mut files).unwrap();
    assert_eq!(mb.last_acked_seq(), 1);
    assert_eq!(mb.current_seq(), 1);
    assert_eq!(mb.append(&mut files, &Message::Text("b".to_string()), 0), 2);
    let left = mb.replay(&files).unwrap();
    assert_eq!(left.len(), 1);
    assert_eq!(left[0].seq, 2);
}

#[test]
fn truncating_again_changes_nothing() {
    let mut files = WalFiles { wal: None, ack: None };
    let mut mb = DurableMailbox::open("p", &mut files).unwrap();
    let value = Json::parse(r#"{"b": [1, {"z": null, "a": -3}], "a": "x"}"#).unwrap();
    mb.append(&mut files, &Message::Text("a".to_string()), 1);
    mb.append(&mut files, &Message::Json(value), -2);
    mb.ack(&mut files, 1);
    mb.truncate(&mut files);
    let once = files.wal.clone();
    assert_eq!(
        once,
        Some(vec![
            r#"{"schema_version":1,"type":"wal","stable_id":"p"}"#.to_string(),
            r#"{"seq":2,"ts":-2,"msg":{"Json":{"a":"x","b":[1,{"a":-3,"z":null}]}}}"#.to_string(),
        ])
    );
    mb.truncate(&mut files);
    assert_eq!(files.wal, once);
}

fn nested(levels: usize) -> Json {
    let mut v = Json::Null;
    for _ in 0..levels {
        v = Json::Array(vec![v]);
    }
    v
}

#[test]
fn messages_as_deep_as_the_reader_goes_come_back() {
    let mut files = WalFiles { wal: None, ack: None };
    let mut mb = DurableMailbox::open("p", &mut files).unwrap();
    mb.append(&mut files, &Message::Json(nested(125)), 0);
    let left = mb.replay(&files).unwrap();
    match &left[0].msg {
        Message::Json(v) => assert_eq!(*v, nested(125)),
        _ => panic!("expected Json"),
    }
    mb.append(&mut files, &Message::Json(nested(126)), 0);
    assert!(mb.replay(&files).is_err());
}

#[test]
fn an_entry_may_be_written_as_a_list() {
    let mut files = WalFiles {
        wal: Some(vec![
            "header".to_string(),
            r#"[7, 3, {"Text": "hi"}]"#.to_string(),
            r#"[8, 3]"#.to_string(),
        ]),
        ack: None,
    };
    let mb = DurableMailbox::open("p", &mut files).unwrap();
    assert_eq!(mb.current_seq(), 7);
    assert_eq!(mb.replay_all(&files).len(), 1);
}
