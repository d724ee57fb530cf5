use erlangrt::agent_rt::types::{IoResult, Message, Reason, SystemMsg};
use erlangrt::agent_rt::wire::{decode_message, encode_message, encode_reason};
use erlangrt::json::Json;

fn json(text: &str) -> Json {
    Json::parse(text).unwrap()
}

#[test]
fn messages_come_back() {
    let all = vec![
        Message::Text("hi".to_string()),
        Message::Json(json(r#"{"a": [1, -2, null, true, 1.5]}"#)),
        Message::System(SystemMsg::Exit { from: 1, reason: Reason::Normal }),
        Message::System(SystemMsg::Exit { from: 1, reason: Reason::Custom("x".to_string()) }),
        Message::System(SystemMsg::IoResponse {
            correlation_id: 2,
            result: IoResult::Done(json("3")),
        }),
        Message::System(SystemMsg::IoResponse {
            correlation_id: 2,
            result: IoResult::Error("e".to_string()),
        }),
        Message::System(SystemMsg::IoResponse { correlation_id: 2, result: IoResult::Timeout }),
        Message::System(SystemMsg::SpawnResult { child_pid: 4, monitor_ref: Some(5) }),
        Message::System(SystemMsg::SpawnResult { child_pid: 4, monitor_ref: None }),
        Message::System(SystemMsg::Down { monitor_ref: 6, pid: 7, reason: Reason::Shutdown }),
        Message::System(SystemMsg::ReceiveTimeout),
    ];
    for m in all {
        let text = encode_message(&m).to_text();
        assert_eq!(decode_message(&json(&text)), Some(m));
    }
}

#[test]
fn variants_have_their_names() {
    assert_eq!(encode_message(&Message::Text("hi".to_string())), json(r#"{"Text": "hi"}"#));
    assert_eq!(encode_reason(&Reason::Normal), json(r#""Normal""#));
    assert_eq!(decode_message(&json(r#"{"Nope": 1}"#)), None);
    assert_eq!(decode_message(&json("5")), None);
    assert_eq!(decode_message(&json(r#"{"Text": 5}"#)), None);
}

#[test]
fn messages_may_be_written_in_other_ways() {
    let same = |a: &str, b: &str| {
        let x = decode_message(&json(a)).unwrap();
        let y = decode_message(&json(b)).unwrap();
        assert_eq!(encode_message(&x), encode_message(&y));
    };
    same(
        r#"{"System": {"Exit": [1, {"Normal": null}]}}"#,
        r#"{"System": {"Exit": {"from": 1, "reason": "Normal"}}}"#,
    );
    same(
        r#"{"System": {"IoResponse": [2, {"Timeout": null}]}}"#,
        r#"{"System": {"IoResponse": {"correlation_id": 2, "result": "Timeout"}}}"#,
    );
    assert!(decode_message(&json(r#"{"System": {"Exit": [1]}}"#)).is_none());
    assert!(decode_message(&json(r#"{"System": {"Exit": [1, "Normal", 2]}}"#)).is_none());
}
