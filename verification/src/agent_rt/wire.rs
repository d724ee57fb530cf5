//! Messages as JSON values: a variant is an object with its name, one without contents is the
//! name alone.
use vstd::prelude::*;
use crate::json;
use crate::agent_rt::types::{IoResult, IoResultV, Message, MessageV, Reason, ReasonV, SystemMsg, SystemMsgV};
use crate::json::{Json, JsonNum, JsonV, NumV, ObjectBuilder};
use crate::util::text::str_eq;

verus! {

/// A variant with contents.
pub open spec fn variant(name: Seq<char>, v: JsonV) -> JsonV {
    JsonV::Object(seq![(name, v)])
}

/// A number.
pub open spec fn num(n: u64) -> JsonV {
    JsonV::Num(NumV::PosInt(n))
}

/// A number that may be missing.
pub open spec fn opt_num(n: Option<u64>) -> JsonV {
    match n {
        Some(k) => num(k),
        None => JsonV::Null,
    }
}

/// The name and the contents of a variant.
pub open spec fn variant_of(v: JsonV) -> Option<(Seq<char>, JsonV)> {
    match v {
        JsonV::Object(m) => if m.len() == 1 {
            Some(m[0])
        } else {
            None
        },
        _ => None,
    }
}

// ---------------------------------------------------------------------------
// Encoding
// ---------------------------------------------------------------------------
/// A reason as JSON.
pub open spec fn reason_json(r: ReasonV) -> JsonV {
    match r {
        ReasonV::Normal => JsonV::Str("Normal"@),
        ReasonV::Shutdown => JsonV::Str("Shutdown"@),
        ReasonV::Custom(s) => variant("Custom"@, JsonV::Str(s)),
    }
}

/// A result as JSON.
pub open spec fn result_json(r: IoResultV) -> JsonV {
    match r {
        IoResultV::Done(v) => variant("Ok"@, v),
        IoResultV::Error(s) => variant("Error"@, JsonV::Str(s)),
        IoResultV::Timeout => JsonV::Str("Timeout"@),
    }
}

/// A message of the runtime as JSON.
pub open spec fn system_json(m: SystemMsgV) -> JsonV {
    match m {
        SystemMsgV::Exit { from, reason } => variant(
            "Exit"@,
            JsonV::Object(seq![("from"@, num(from)), ("reason"@, reason_json(reason))]),
        ),
        SystemMsgV::IoResponse { correlation_id, result } => variant(
            "IoResponse"@,
            JsonV::Object(
                seq![("correlation_id"@, num(correlation_id)), ("result"@, result_json(result))],
            ),
        ),
        SystemMsgV::SpawnResult { child_pid, monitor_ref } => variant(
            "SpawnResult"@,
            JsonV::Object(
                seq![
                    ("child_pid"@, num(child_pid)),
                    ("monitor_ref"@, opt_num(monitor_ref)),
                ],
            ),
        ),
        SystemMsgV::Down { monitor_ref, pid, reason } => variant(
            "Down"@,
            JsonV::Object(
                seq![
                    ("monitor_ref"@, num(monitor_ref)),
                    ("pid"@, num(pid)),
                    ("reason"@, reason_json(reason)),
                ],
            ),
        ),
        SystemMsgV::ReceiveTimeout => JsonV::Str("ReceiveTimeout"@),
    }
}

/// A message as JSON.
pub open spec fn message_json(m: MessageV) -> JsonV {
    match m {
        MessageV::Text(s) => variant("Text"@, JsonV::Str(s)),
        MessageV::Json(v) => variant("Json"@, v),
        MessageV::System(s) => variant("System"@, system_json(s)),
    }
}

// ---------------------------------------------------------------------------
// Decoding
// ---------------------------------------------------------------------------
/// The reason that a JSON value gives.
pub open spec fn reason_of(v: JsonV) -> Option<ReasonV> {
    match v {
        JsonV::Str(s) => if s == "Normal"@ {
            Some(ReasonV::Normal)
        } else if s == "Shutdown"@ {
            Some(ReasonV::Shutdown)
        } else {
            None
        },
        _ => match variant_of(v) {
            Some((name, c)) => if name == "Custom"@ && c is Str {
                Some(ReasonV::Custom(c->Str_0))
            } else if name == "Normal"@ && c is Null {
                Some(ReasonV::Normal)
            } else if name == "Shutdown"@ && c is Null {
                Some(ReasonV::Shutdown)
            } else {
                None
            },
            None => None,
        },
    }
}

/// The result that a JSON value gives.
pub open spec fn result_of(v: JsonV) -> Option<IoResultV> {
    match v {
        JsonV::Str(s) => if s == "Timeout"@ {
            Some(IoResultV::Timeout)
        } else {
            None
        },
        _ => match variant_of(v) {
            Some((name, c)) => if name == "Ok"@ {
                Some(IoResultV::Done(c))
            } else if name == "Error"@ && c is Str {
                Some(IoResultV::Error(c->Str_0))
            } else if name == "Timeout"@ && c is Null {
                Some(IoResultV::Timeout)
            } else {
                None
            },
            None => None,
        },
    }
}

/// The reason under a member.
pub open spec fn reason_member(v: JsonV, k: Seq<char>) -> Option<ReasonV> {
    match v.get(k) {
        Some(r) => reason_of(r),
        None => None,
    }
}

/// The end of a process that the members of an object give.
pub open spec fn exit_in(c: JsonV) -> Option<SystemMsgV> {
    match (c.get_unsigned("from"@), reason_member(c, "reason"@)) {
        (Some(from), Some(reason)) => Some(SystemMsgV::Exit { from, reason }),
        _ => None,
    }
}

/// The response that the members of an object give.
pub open spec fn response_in(c: JsonV) -> Option<SystemMsgV> {
    match (c.get_unsigned("correlation_id"@), c.get("result"@)) {
        (Some(correlation_id), Some(r)) => match result_of(r) {
            Some(result) => Some(SystemMsgV::IoResponse { correlation_id, result }),
            None => None,
        },
        _ => None,
    }
}

/// The new process that the members of an object give.
pub open spec fn spawn_in(c: JsonV) -> Option<SystemMsgV> {
    match c.get_unsigned("child_pid"@) {
        Some(child_pid) => match c.get("monitor_ref"@) {
            None => Some(SystemMsgV::SpawnResult { child_pid, monitor_ref: None }),
            Some(JsonV::Null) => Some(SystemMsgV::SpawnResult { child_pid, monitor_ref: None }),
            Some(JsonV::Num(NumV::PosInt(n))) => Some(
                SystemMsgV::SpawnResult { child_pid, monitor_ref: Some(n) },
            ),
            _ => None,
        },
        None => None,
    }
}

/// The end of a monitored process that the members of an object give.
pub open spec fn down_in(c: JsonV) -> Option<SystemMsgV> {
    match (
        c.get_unsigned("monitor_ref"@),
        c.get_unsigned("pid"@),
        reason_member(c, "reason"@),
    ) {
        (Some(monitor_ref), Some(pid), Some(reason)) => Some(
            SystemMsgV::Down { monitor_ref, pid, reason },
        ),
        _ => None,
    }
}

/// The names of the members of each message of the runtime.
pub open spec fn exit_names() -> Seq<Seq<char>> {
    seq!["from"@, "reason"@]
}

pub open spec fn response_names() -> Seq<Seq<char>> {
    seq!["correlation_id"@, "result"@]
}

pub open spec fn spawn_names() -> Seq<Seq<char>> {
    seq!["child_pid"@, "monitor_ref"@]
}

pub open spec fn down_names() -> Seq<Seq<char>> {
    seq!["monitor_ref"@, "pid"@, "reason"@]
}

/// The message of the runtime that a JSON value gives.
pub open spec fn system_of(v: JsonV) -> Option<SystemMsgV> {
    match v {
        JsonV::Str(s) => if s == "ReceiveTimeout"@ {
            Some(SystemMsgV::ReceiveTimeout)
        } else {
            None
        },
        _ => match variant_of(v) {
            Some((name, c)) => if name == "Exit"@ {
                exit_in(json::record(c, exit_names(), 2))
            } else if name == "IoResponse"@ {
                response_in(json::record(c, response_names(), 2))
            } else if name == "SpawnResult"@ {
                spawn_in(json::record(c, spawn_names(), 2))
            } else if name == "Down"@ {
                down_in(json::record(c, down_names(), 3))
            } else if name == "ReceiveTimeout"@ && c is Null {
                Some(SystemMsgV::ReceiveTimeout)
            } else {
                None
            },
            None => None,
        },
    }
}

/// The message that a JSON value gives.
pub open spec fn message_of(v: JsonV) -> Option<MessageV> {
    match variant_of(v) {
        Some((name, c)) => if name == "Text"@ && c is Str {
            Some(MessageV::Text(c->Str_0))
        } else if name == "Json"@ {
            Some(MessageV::Json(c))
        } else if name == "System"@ {
            match system_of(c) {
                Some(s) => Some(MessageV::System(s)),
                None => None,
            }
        } else {
            None
        },
        None => None,
    }
}

// ---------------------------------------------------------------------------
// What comes back
// ---------------------------------------------------------------------------
/// Two results with the same contents.
pub open spec fn same_result(a: IoResultV, b: IoResultV) -> bool {
    match (a, b) {
        (IoResultV::Done(x), IoResultV::Done(y)) => json::same_json(x, y),
        _ => a == b,
    }
}

/// Two messages with the same contents.
pub open spec fn same_message(a: MessageV, b: MessageV) -> bool {
    match (a, b) {
        (MessageV::Json(x), MessageV::Json(y)) => json::same_json(x, y),
        (
            MessageV::System(SystemMsgV::IoResponse { correlation_id: i, result: x }),
            MessageV::System(SystemMsgV::IoResponse { correlation_id: j, result: y }),
        ) => i == j && same_result(x, y),
        _ => a == b,
    }
}

/// The JSON value within a message can be given back by a file: it is no deeper than the reader
/// goes within the message and its record.
pub open spec fn lasting_message(m: MessageV) -> bool {
    match m {
        MessageV::Json(v) => json::plain(v) && json::shallow(v, 125),
        MessageV::System(SystemMsgV::IoResponse { correlation_id: _, result: IoResultV::Done(v) }) =>
            json::plain(v) && json::shallow(v, 122),
        _ => true,
    }
}

/// What is the same as an object with one member has that member too.
pub proof fn lemma_same_variant(name: Seq<char>, v: JsonV, w: JsonV)
    requires
        json::same_json(variant(name, v), w),
    ensures
        variant_of(w) matches Some((n, c)) && n == name && json::same_json(v, c),
        !(w is Str),
{
    let x = variant(name, v)->Object_0;
    assert(x[0] == (name, v));
    json::lemma_same_member(x, w, 0);
    let y = w->Object_0;
    assert(y.len() == 1);
    reveal_with_fuel(json::member, 2);
    assert(y[0].0 == name);
}

/// The names of the variants, told apart by their lengths and first letters.
proof fn lemma_names()
    ensures
        "Normal"@ != "Shutdown"@,
        "Ok"@ != "Error"@,
        "Exit"@ != "IoResponse"@,
        "Exit"@ != "SpawnResult"@,
        "Exit"@ != "Down"@,
        "IoResponse"@ != "SpawnResult"@,
        "IoResponse"@ != "Down"@,
        "SpawnResult"@ != "Down"@,
        "Text"@ != "Json"@,
        "Text"@ != "System"@,
        "Json"@ != "System"@,
        "Exit"@ != "ReceiveTimeout"@,
        "IoResponse"@ != "ReceiveTimeout"@,
        "SpawnResult"@ != "ReceiveTimeout"@,
        "Down"@ != "ReceiveTimeout"@,
        "Ok"@ != "Timeout"@,
        "Error"@ != "Timeout"@,
        "Exit"@.len() < 30 && "IoResponse"@.len() < 30 && "SpawnResult"@.len() < 30,
        "Down"@.len() < 30 && "Text"@.len() < 30 && "Json"@.len() < 30 && "System"@.len() < 30,
        "Ok"@.len() < 30 && "Error"@.len() < 30,
{
    reveal_strlit("ReceiveTimeout");
    reveal_strlit("Timeout");
    assert("ReceiveTimeout"@.len() == 14 && "Timeout"@.len() == 7);
    reveal_strlit("Custom");
    reveal_strlit("Normal");
    reveal_strlit("Shutdown");
    reveal_strlit("Ok");
    reveal_strlit("Error");
    reveal_strlit("Exit");
    reveal_strlit("IoResponse");
    reveal_strlit("SpawnResult");
    reveal_strlit("Down");
    reveal_strlit("Text");
    reveal_strlit("Json");
    reveal_strlit("System");
    assert("Exit"@[0] == 'E' && "Down"@[0] == 'D' && "Text"@[0] == 'T' && "Json"@[0] == 'J');
    assert("Normal"@.len() == 6 && "Shutdown"@.len() == 8 && "Ok"@.len() == 2 && "Error"@.len()
        == 5 && "IoResponse"@.len() == 10 && "SpawnResult"@.len() == 11 && "System"@.len() == 6);
}

proof fn lemma_reason_back(r: ReasonV, w: JsonV)
    requires
        json::same_json(reason_json(r), w),
    ensures
        reason_of(w) == Some(r),
{
    lemma_names();
    match r {
        ReasonV::Custom(s) => {
            lemma_same_variant("Custom"@, JsonV::Str(s), w);
            assert(json::same_json(JsonV::Str(s), (variant_of(w)->0).1));
        },
        _ => {},
    }
}

proof fn lemma_result_back(r: IoResultV, w: JsonV)
    requires
        json::same_json(result_json(r), w),
    ensures
        result_of(w) matches Some(q) && same_result(r, q),
{
    lemma_names();
    match r {
        IoResultV::Done(v) => {
            lemma_same_variant("Ok"@, v, w);
        },
        IoResultV::Error(s) => {
            lemma_same_variant("Error"@, JsonV::Str(s), w);
            assert(json::same_json(JsonV::Str(s), (variant_of(w)->0).1));
        },
        IoResultV::Timeout => {},
    }
}

proof fn lemma_system_back(m: SystemMsgV, w: JsonV)
    requires
        json::same_json(system_json(m), w),
    ensures
        system_of(w) matches Some(q) && same_message(MessageV::System(m), MessageV::System(q)),
{
    lemma_names();
    match m {
        SystemMsgV::Exit { from, reason } => {
            let c = JsonV::Object(seq![("from"@, num(from)), ("reason"@, reason_json(reason))]);
            lemma_same_variant("Exit"@, c, w);
            let d = (variant_of(w)->0).1;
            let x = c->Object_0;
            assert(x[0] == ("from"@, num(from)));
            assert(x[1] == ("reason"@, reason_json(reason)));
            json::lemma_same_member(x, d, 0);
            json::lemma_same_member(x, d, 1);
            lemma_reason_back(reason, d.get("reason"@)->0);
        },
        SystemMsgV::IoResponse { correlation_id, result } => {
            let c = JsonV::Object(
                seq![("correlation_id"@, num(correlation_id)), ("result"@, result_json(result))],
            );
            lemma_same_variant("IoResponse"@, c, w);
            let d = (variant_of(w)->0).1;
            let x = c->Object_0;
            assert(x[0] == ("correlation_id"@, num(correlation_id)));
            assert(x[1] == ("result"@, result_json(result)));
            json::lemma_same_member(x, d, 0);
            json::lemma_same_member(x, d, 1);
            lemma_result_back(result, d.get("result"@)->0);
        },
        SystemMsgV::SpawnResult { child_pid, monitor_ref } => {
            let mon = opt_num(monitor_ref);
            let c = JsonV::Object(seq![("child_pid"@, num(child_pid)), ("monitor_ref"@, mon)]);
            lemma_same_variant("SpawnResult"@, c, w);
            let d = (variant_of(w)->0).1;
            let x = c->Object_0;
            assert(x[0] == ("child_pid"@, num(child_pid)));
            assert(x[1] == ("monitor_ref"@, mon));
            json::lemma_same_member(x, d, 0);
            json::lemma_same_member(x, d, 1);
            json::lemma_same_null(mon, d.get("monitor_ref"@)->0);
        },
        SystemMsgV::Down { monitor_ref, pid, reason } => {
            let c = JsonV::Object(
                seq![
                    ("monitor_ref"@, num(monitor_ref)),
                    ("pid"@, num(pid)),
                    ("reason"@, reason_json(reason)),
                ],
            );
            lemma_same_variant("Down"@, c, w);
            let d = (variant_of(w)->0).1;
            let x = c->Object_0;
            assert(x[0] == ("monitor_ref"@, num(monitor_ref)));
            assert(x[1] == ("pid"@, num(pid)));
            assert(x[2] == ("reason"@, reason_json(reason)));
            json::lemma_same_member(x, d, 0);
            json::lemma_same_member(x, d, 1);
            json::lemma_same_member(x, d, 2);
            lemma_reason_back(reason, d.get("reason"@)->0);
        },
        SystemMsgV::ReceiveTimeout => {},
    }
}

/// A message comes back from whatever is the same JSON value as its own.
pub proof fn law_message_comes_back(m: MessageV, w: JsonV)
    requires
        json::same_json(message_json(m), w),
    ensures
        message_of(w) matches Some(q) && same_message(m, q),
{
    lemma_names();
    match m {
        MessageV::Text(s) => {
            lemma_same_variant("Text"@, JsonV::Str(s), w);
            assert(json::same_json(JsonV::Str(s), (variant_of(w)->0).1));
        },
        MessageV::Json(v) => {
            lemma_same_variant("Json"@, v, w);
        },
        MessageV::System(s) => {
            lemma_same_variant("System"@, system_json(s), w);
            lemma_system_back(s, (variant_of(w)->0).1);
        },
    }
}

/// A value that may be nested to a depth may be nested deeper.
pub proof fn lemma_shallow_more(v: JsonV, a: nat, b: nat)
    requires
        json::shallow(v, a),
        a <= b,
    ensures
        json::shallow(v, b),
    decreases v,
{
    match v {
        JsonV::Array(x) => {
            assert forall|i: int| 0 <= i < x.len() implies json::shallow(
                #[trigger] x[i],
                (b - 1) as nat,
            ) by {
                lemma_shallow_more(x[i], (a - 1) as nat, (b - 1) as nat);
            }
        },
        JsonV::Object(x) => {
            assert forall|i: int| 0 <= i < x.len() implies json::shallow(
                (#[trigger] x[i]).1,
                (b - 1) as nat,
            ) by {
                assert(decreases_to!(x => x[i]));
                lemma_shallow_more(x[i].1, (a - 1) as nat, (b - 1) as nat);
            }
        },
        _ => {},
    }
}

proof fn lemma_variant_plain(name: Seq<char>, v: JsonV, d: nat)
    requires
        json::plain(v),
        json::shallow(v, d),
        name.len() < 30,
    ensures
        json::plain(variant(name, v)),
        json::shallow(variant(name, v), d + 1),
{
    json::lemma_record_storable(variant(name, v)->Object_0, d);
}

/// The JSON value of a message whose own value lasts can be given back by a file.
pub proof fn lemma_message_plain(m: MessageV)
    requires
        lasting_message(m),
    ensures
        json::plain(message_json(m)),
        json::shallow(message_json(m), 126),
{
    lemma_names();
    match m {
        MessageV::Text(s) => {
            lemma_variant_plain("Text"@, JsonV::Str(s), 125);
        },
        MessageV::Json(v) => {
            lemma_variant_plain("Json"@, v, 125);
        },
        MessageV::System(s) => {
            lemma_system_plain(s);
            lemma_variant_plain("System"@, system_json(s), 125);
        },
    }
}

proof fn lemma_reason_plain(r: ReasonV)
    ensures
        json::plain(reason_json(r)),
        json::shallow(reason_json(r), 1),
{
    reveal_strlit("Custom");
    assert("Custom"@.len() == 6);
    match r {
        ReasonV::Custom(s) => {
            lemma_variant_plain("Custom"@, JsonV::Str(s), 0);
        },
        _ => {},
    }
}

proof fn lemma_system_plain(s: SystemMsgV)
    requires
        lasting_message(MessageV::System(s)),
    ensures
        json::plain(system_json(s)),
        json::shallow(system_json(s), 125),
{
    lemma_names();
    reveal_strlit("from");
    reveal_strlit("reason");
    reveal_strlit("correlation_id");
    reveal_strlit("result");
    reveal_strlit("child_pid");
    reveal_strlit("monitor_ref");
    reveal_strlit("pid");
    assert("from"@.len() == 4 && "reason"@.len() == 6 && "correlation_id"@.len() == 14
        && "result"@.len() == 6 && "child_pid"@.len() == 9 && "monitor_ref"@.len() == 11
        && "pid"@.len() == 3);
    match s {
        SystemMsgV::Exit { from, reason } => {
            lemma_reason_plain(reason);
            let x = seq![("from"@, num(from)), ("reason"@, reason_json(reason))];
            json::lemma_record_storable(x, 1);
            assert(system_json(s) == variant("Exit"@, JsonV::Object(x)));
            lemma_variant_plain("Exit"@, JsonV::Object(x), 2);
            lemma_shallow_more(system_json(s), 3, 125);
        },
        SystemMsgV::IoResponse { correlation_id, result } => {
            match result {
                IoResultV::Done(v) => {
                    lemma_variant_plain("Ok"@, v, 122);
                },
                IoResultV::Error(e) => {
                    lemma_variant_plain("Error"@, JsonV::Str(e), 122);
                },
                IoResultV::Timeout => {},
            }
            let x = seq![("correlation_id"@, num(correlation_id)), ("result"@, result_json(result))];
            json::lemma_record_storable(x, 123);
            assert(system_json(s) == variant("IoResponse"@, JsonV::Object(x)));
            lemma_variant_plain("IoResponse"@, JsonV::Object(x), 124);
        },
        SystemMsgV::SpawnResult { child_pid, monitor_ref } => {
            let mon = opt_num(monitor_ref);
            let x = seq![("child_pid"@, num(child_pid)), ("monitor_ref"@, mon)];
            json::lemma_record_storable(x, 1);
            assert(system_json(s) == variant("SpawnResult"@, JsonV::Object(x)));
            lemma_variant_plain("SpawnResult"@, JsonV::Object(x), 2);
            lemma_shallow_more(system_json(s), 3, 125);
        },
        SystemMsgV::Down { monitor_ref, pid, reason } => {
            lemma_reason_plain(reason);
            let x = seq![
                ("monitor_ref"@, num(monitor_ref)),
                ("pid"@, num(pid)),
                ("reason"@, reason_json(reason)),
            ];
            json::lemma_record_storable(x, 1);
            assert(system_json(s) == variant("Down"@, JsonV::Object(x)));
            lemma_variant_plain("Down"@, JsonV::Object(x), 2);
            lemma_shallow_more(system_json(s), 3, 125);
        },
        SystemMsgV::ReceiveTimeout => {},
    }
}

proof fn lemma_variant_same(name: Seq<char>, x: JsonV, y: JsonV)
    requires
        json::same_json(x, y),
    ensures
        json::same_json(variant(name, x), variant(name, y)),
{
    let a = variant(name, x)->Object_0;
    let b = variant(name, y)->Object_0;
    assert(b[0] == (name, y));
    assert forall|i: int| 0 <= i < a.len() implies (json::member(b, (#[trigger] a[i]).0) matches Some(v)
        && json::same_json(a[i].1, v)) by {
        assert(a[i] == (name, x));
    }
}

/// A message with the same contents as one that can be given back can be given back too.
pub proof fn lemma_same_lasting(a: MessageV, b: MessageV)
    requires
        same_message(a, b),
        lasting_message(a),
    ensures
        lasting_message(b),
{
    match (a, b) {
        (MessageV::Json(x), MessageV::Json(y)) => {
            json::lemma_same_plain(x, y, 125);
        },
        (
            MessageV::System(SystemMsgV::IoResponse { correlation_id: _, result: IoResultV::Done(x) }),
            MessageV::System(SystemMsgV::IoResponse { correlation_id: _, result: IoResultV::Done(y) }),
        ) => {
            json::lemma_same_plain(x, y, 122);
        },
        _ => {},
    }
}

/// Two messages with the same contents have the same JSON value.
pub proof fn lemma_message_same(a: MessageV, b: MessageV)
    requires
        same_message(a, b),
        lasting_message(a),
    ensures
        json::same_json(message_json(a), message_json(b)),
{
    lemma_message_plain(a);
    if a == b {
        json::lemma_same_self(message_json(a));
    } else {
        match (a, b) {
            (MessageV::Json(x), MessageV::Json(y)) => {
                lemma_variant_same("Json"@, x, y);
            },
            (
                MessageV::System(SystemMsgV::IoResponse { correlation_id: i, result: r }),
                MessageV::System(SystemMsgV::IoResponse { correlation_id: j, result: q }),
            ) => {
                lemma_variant_same("Ok"@, r->Done_0, q->Done_0);
                reveal_strlit("correlation_id");
                reveal_strlit("result");
                assert("correlation_id"@.len() == 14 && "result"@.len() == 6);
                let x = seq![("correlation_id"@, num(i)), ("result"@, result_json(r))];
                let y = seq![("correlation_id"@, num(j)), ("result"@, result_json(q))];
                assert forall|k: int| 0 <= k < x.len() implies (json::member(y, (#[trigger] x[k]).0) matches Some(v)
                    && json::same_json(x[k].1, v)) by {
                    json::lemma_member_at(y, k);
                    assert(y[k].0 == x[k].0);
                }
                assert(json::same_json(JsonV::Object(x), JsonV::Object(y)));
                lemma_variant_same("IoResponse"@, JsonV::Object(x), JsonV::Object(y));
                let sa = SystemMsgV::IoResponse { correlation_id: i, result: r };
                let sb = SystemMsgV::IoResponse { correlation_id: j, result: q };
                assert(system_json(sa) == variant("IoResponse"@, JsonV::Object(x)));
                assert(system_json(sb) == variant("IoResponse"@, JsonV::Object(y)));
                lemma_variant_same("System"@, system_json(sa), system_json(sb));
            },
            _ => {},
        }
    }
}

// ---------------------------------------------------------------------------
// Executable forms
// ---------------------------------------------------------------------------
/// Makes an object with one member.
pub fn make_variant(name: &str, v: Json) -> (r: Json)
    ensures
        r@ == variant(name@, v@),
{
    let mut o = ObjectBuilder::new();
    o.put(name, v);
    assert(o@ =~= seq![(name@, v@)]);
    o.build()
}

fn make_num(n: u64) -> (r: Json)
    ensures
        r@ == num(n),
{
    Json::Num(JsonNum::PosInt(n))
}

/// Makes the JSON value of a reason.
pub fn encode_reason(reason: &Reason) -> (r: Json)
    ensures
        r@ == reason_json(reason@),
{
    match reason {
        Reason::Normal => Json::Str("Normal".to_owned()),
        Reason::Shutdown => Json::Str("Shutdown".to_owned()),
        Reason::Custom(s) => make_variant("Custom", Json::Str(s.clone())),
    }
}

/// Makes the JSON value of a result.
pub fn encode_result(result: &IoResult) -> (r: Json)
    ensures
        r@ == result_json(result@),
{
    match result {
        IoResult::Done(v) => make_variant("Ok", v.dup()),
        IoResult::Error(s) => make_variant("Error", Json::Str(s.clone())),
        IoResult::Timeout => Json::Str("Timeout".to_owned()),
    }
}

/// Makes the JSON value of a message of the runtime.
pub fn encode_system(m: &SystemMsg) -> (r: Json)
    ensures
        r@ == system_json(m@),
{
    let mut o = ObjectBuilder::new();
    match m {
        SystemMsg::Exit { from, reason } => {
            o.put("from", make_num(*from));
            o.put("reason", encode_reason(reason));
            assert(o@ =~= seq![("from"@, num(*from)), ("reason"@, reason_json(reason@))]);
            make_variant("Exit", o.build())
        },
        SystemMsg::IoResponse { correlation_id, result } => {
            o.put("correlation_id", make_num(*correlation_id));
            o.put("result", encode_result(result));
            assert(o@ =~= seq![
                ("correlation_id"@, num(*correlation_id)),
                ("result"@, result_json(result@)),
            ]);
            make_variant("IoResponse", o.build())
        },
        SystemMsg::SpawnResult { child_pid, monitor_ref } => {
            o.put("child_pid", make_num(*child_pid));
            match monitor_ref {
                Some(n) => o.put("monitor_ref", make_num(*n)),
                None => o.put("monitor_ref", Json::Null),
            }
            assert(o@ =~= seq![
                ("child_pid"@, num(*child_pid)),
                ("monitor_ref"@, opt_num(*monitor_ref)),
            ]);
            make_variant("SpawnResult", o.build())
        },
        SystemMsg::Down { monitor_ref, pid, reason } => {
            o.put("monitor_ref", make_num(*monitor_ref));
            o.put("pid", make_num(*pid));
            o.put("reason", encode_reason(reason));
            assert(o@ =~= seq![
                ("monitor_ref"@, num(*monitor_ref)),
                ("pid"@, num(*pid)),
                ("reason"@, reason_json(reason@)),
            ]);
            make_variant("Down", o.build())
        },
        SystemMsg::ReceiveTimeout => Json::Str("ReceiveTimeout".to_owned()),
    }
}

/// Makes the JSON value of a message.
pub fn encode_message(m: &Message) -> (r: Json)
    ensures
        r@ == message_json(m@),
{
    match m {
        Message::Text(s) => make_variant("Text", Json::Str(s.clone())),
        Message::Json(v) => make_variant("Json", v.dup()),
        Message::System(s) => make_variant("System", encode_system(s)),
    }
}

/// The only member of an object, if it has just one.
pub fn read_variant(v: &Json) -> (r: Option<(&String, &Json)>)
    ensures
        (match r {
            Some((n, c)) => Some((n@, c@)),
            None => None,
        }) == variant_of(v@),
{
    match v {
        Json::Object(m) => if m.len() == 1 {
            let e = &m[0];
            assert(v@->Object_0[0] == (e.0@, e.1@));
            Some((&e.0, &e.1))
        } else {
            None
        },
        _ => None,
    }
}

/// What an optional reason is.
pub open spec fn opt_reason(o: Option<Reason>) -> Option<ReasonV> {
    match o {
        Some(r) => Some(r@),
        None => None,
    }
}

/// Reads a reason.
pub fn decode_reason(v: &Json) -> (r: Option<Reason>)
    ensures
        opt_reason(r) == reason_of(v@),
{
    if let Json::Str(s) = v {
        if str_eq(s.as_str(), "Normal") {
            return Some(Reason::Normal);
        }
        if str_eq(s.as_str(), "Shutdown") {
            return Some(Reason::Shutdown);
        }
        return None;
    }
    match read_variant(v) {
        Some((name, c)) => match c {
            Json::Str(s) => if str_eq(name.as_str(), "Custom") {
                Some(Reason::Custom(s.clone()))
            } else {
                None
            },
            Json::Null => if str_eq(name.as_str(), "Normal") {
                Some(Reason::Normal)
            } else if str_eq(name.as_str(), "Shutdown") {
                Some(Reason::Shutdown)
            } else {
                None
            },
            _ => None,
        },
        None => None,
    }
}

/// Reads a result.
pub fn decode_result(v: &Json) -> (r: Option<IoResult>)
    ensures
        (match r {
            Some(x) => Some(x@),
            None => None,
        }) == result_of(v@),
{
    if let Json::Str(s) = v {
        if str_eq(s.as_str(), "Timeout") {
            return Some(IoResult::Timeout);
        }
        return None;
    }
    match read_variant(v) {
        Some((name, c)) => {
            if str_eq(name.as_str(), "Ok") {
                return Some(IoResult::Done(c.dup()));
            }
            match c {
                Json::Str(s) => if str_eq(name.as_str(), "Error") {
                    Some(IoResult::Error(s.clone()))
                } else {
                    None
                },
                Json::Null => if str_eq(name.as_str(), "Timeout") {
                    Some(IoResult::Timeout)
                } else {
                    None
                },
                _ => None,
            }
        },
        None => None,
    }
}

fn read_reason(v: &Json, k: &str) -> (r: Option<Reason>)
    ensures
        opt_reason(r) == reason_member(v@, k@),
{
    match v.get(k) {
        Some(x) => decode_reason(x),
        None => None,
    }
}

/// Reads a message of the runtime.
pub fn decode_system(v: &Json) -> (r: Option<SystemMsg>)
    ensures
        (match r {
            Some(x) => Some(x@),
            None => None,
        }) == system_of(v@),
{
    if let Json::Str(s) = v {
        if str_eq(s.as_str(), "ReceiveTimeout") {
            return Some(SystemMsg::ReceiveTimeout);
        }
        return None;
    }
    match read_variant(v) {
        Some((name, c)) => {
            if str_eq(name.as_str(), "Exit") {
                let names: Vec<&str> = vec!["from", "reason"];
                assert(json::names_view(names@) =~= exit_names());
                let c: Json = c.as_record(&names, 2);
                return match (c.get_u64("from"), read_reason(&c, "reason")) {
                    (Some(from), Some(reason)) => Some(SystemMsg::Exit { from, reason }),
                    _ => None,
                };
            }
            if str_eq(name.as_str(), "IoResponse") {
                let names: Vec<&str> = vec!["correlation_id", "result"];
                assert(json::names_view(names@) =~= response_names());
                let c: Json = c.as_record(&names, 2);
                return match (c.get_u64("correlation_id"), c.get("result")) {
                    (Some(correlation_id), Some(x)) => match decode_result(x) {
                        Some(result) => Some(SystemMsg::IoResponse { correlation_id, result }),
                        None => None,
                    },
                    _ => None,
                };
            }
            if str_eq(name.as_str(), "SpawnResult") {
                let names: Vec<&str> = vec!["child_pid", "monitor_ref"];
                assert(json::names_view(names@) =~= spawn_names());
                let c: Json = c.as_record(&names, 2);
                let child_pid: u64 = match c.get_u64("child_pid") {
                    Some(n) => n,
                    None => {
                        return None;
                    },
                };
                return match c.get("monitor_ref") {
                    None => Some(SystemMsg::SpawnResult { child_pid, monitor_ref: None }),
                    Some(Json::Null) => Some(SystemMsg::SpawnResult { child_pid, monitor_ref: None }),
                    Some(x) => match x.as_u64() {
                        Some(n) => Some(SystemMsg::SpawnResult { child_pid, monitor_ref: Some(n) }),
                        None => None,
                    },
                };
            }
            if str_eq(name.as_str(), "Down") {
                let names: Vec<&str> = vec!["monitor_ref", "pid", "reason"];
                assert(json::names_view(names@) =~= down_names());
                let c: Json = c.as_record(&names, 3);
                return match (c.get_u64("monitor_ref"), c.get_u64("pid"), read_reason(&c, "reason")) {
                    (Some(monitor_ref), Some(pid), Some(reason)) => Some(
                        SystemMsg::Down { monitor_ref, pid, reason },
                    ),
                    _ => None,
                };
            }
            match c {
                Json::Null => if str_eq(name.as_str(), "ReceiveTimeout") {
                    Some(SystemMsg::ReceiveTimeout)
                } else {
                    None
                },
                _ => None,
            }
        },
        None => None,
    }
}

/// What an optional message is.
pub open spec fn opt_message(o: Option<Message>) -> Option<MessageV> {
    match o {
        Some(m) => Some(m@),
        None => None,
    }
}

/// Reads a message.
pub fn decode_message(v: &Json) -> (r: Option<Message>)
    ensures
        opt_message(r) == message_of(v@),
{
    match read_variant(v) {
        Some((name, c)) => {
            if str_eq(name.as_str(), "Text") {
                if let Json::Str(s) = c {
                    return Some(Message::Text(s.clone()));
                }
            }
            proof {
                lemma_names();
            }
            if str_eq(name.as_str(), "Json") {
                return Some(Message::Json(c.dup()));
            }
            if str_eq(name.as_str(), "System") {
                return match decode_system(c) {
                    Some(m) => Some(Message::System(m)),
                    None => None,
                };
            }
            None
        },
        None => None,
    }
}

/// The form of messages outside: a value under the name of its kind.
pub proof fn law_message_form(s: Seq<char>, v: JsonV, from: u64, number: u64, reason: ReasonV)
    ensures
        message_json(MessageV::Text(s)).get_text("Text"@) == Some(s),
        message_json(MessageV::Json(v)).get("Json"@) == Some(v),
        message_json(MessageV::System(SystemMsgV::Exit { from, reason })).get("System"@) matches Some(
            x,
        ) && x.get("Exit"@) matches Some(y) && y.get_unsigned("from"@) == Some(from) && y.get(
            "reason"@,
        ) == Some(reason_json(reason)),
        message_json(
            MessageV::System(
                SystemMsgV::IoResponse { correlation_id: number, result: IoResultV::Done(v) },
            ),
        ).get("System"@) matches Some(x) && x.get("IoResponse"@) matches Some(y) && y.get_unsigned(
            "correlation_id"@,
        ) == Some(number) && (y.get("result"@) matches Some(z) && z.get("Ok"@) == Some(v)),
        reason_json(ReasonV::Custom(s)).get_text("Custom"@) == Some(s),
        reason_json(ReasonV::Normal) == JsonV::Str("Normal"@),
        reason_json(ReasonV::Shutdown) == JsonV::Str("Shutdown"@),
{
    reveal_strlit("from");
    reveal_strlit("reason");
    reveal_strlit("correlation_id");
    reveal_strlit("result");
    assert("from"@.len() == 4 && "reason"@.len() == 6);
    assert("correlation_id"@.len() == 14 && "result"@.len() == 6);
    let e = seq![("from"@, num(from)), ("reason"@, reason_json(reason))];
    json::lemma_member_at(e, 0);
    json::lemma_member_at(e, 1);
    let r = seq![("correlation_id"@, num(number)), ("result"@, result_json(IoResultV::Done(v)))];
    json::lemma_member_at(r, 0);
    json::lemma_member_at(r, 1);
}

} // verus!
