use erlangrt::agent_rt::behaviors::{
    dispatch_gen_agent_message, EventAction, EventHandler, EventManager, GenAgent, Noreply, Reply,
    StateMachine, Transition,
};
use erlangrt::agent_rt::types::{AgentPid, Message, PidSource};
use erlangrt::json::{Json, JsonNum};
use std::sync::atomic::{AtomicUsize, Ordering};
use std::sync::Arc;

fn json(text: &str) -> Json {
    Json::parse(text).unwrap()
}

fn number(n: i64) -> Json {
    if n < 0 {
        Json::Num(JsonNum::NegInt(n))
    } else {
        Json::Num(JsonNum::PosInt(n as u64))
    }
}

// ---- GenAgent test implementation ----

struct CounterAgent;

impl GenAgent for CounterAgent {
    type State = i64;

    fn init(&self, args: Json) -> Result<Self::State, String> {
        Ok(args.get("initial").and_then(|v| v.as_i64()).unwrap_or(0))
    }

    fn handle_request(&self, state: &mut Self::State, _from: AgentPid, request: Json) -> Reply {
        match request.get_str("action").map(|s| s.as_str()) {
            Some("get") => Reply::Done(number(*state)),
            Some("increment") => {
                *state += 1;
                Reply::Done(number(*state))
            }
            _ => Reply::Error("unknown action".to_string()),
        }
    }

    fn handle_notify(&self, state: &mut Self::State, notification: Json) -> Noreply {
        if let Some(val) = notification.get("set").and_then(|v| v.as_i64()) {
            *state = val;
        }
        Noreply::Done
    }

    fn handle_info(&self, _state: &mut Self::State, _msg: Message) -> Noreply {
        Noreply::Done
    }
}

#[test]
fn test_gen_agent_init() {
    let agent = CounterAgent;
    let state = agent.init(json(r#"{"initial": 10}"#)).unwrap();
    assert_eq!(state, 10);
}

#[test]
fn test_gen_agent_handle_request() {
    let agent = CounterAgent;
    let mut state = 0i64;
    let from = AgentPid::new(&mut PidSource::new());
    let reply = agent.handle_request(&mut state, from, json(r#"{"action": "increment"}"#));
    assert!(matches!(reply, Reply::Done(v) if v == json("1")));
}

#[test]
fn test_gen_agent_handle_notify() {
    let agent = CounterAgent;
    let mut state = 0i64;
    agent.handle_notify(&mut state, json(r#"{"set": 42}"#));
    assert_eq!(state, 42);
}

#[test]
fn test_gen_agent_call_message_dispatch() {
    let agent = CounterAgent;
    let from = AgentPid::new(&mut PidSource::new());

    let msg = json(&format!(r#"{{"$call": {{"action": "increment"}}, "$from": {}}}"#, from.raw()));
    let (state, reply) = dispatch_gen_agent_message(&agent, 0i64, msg);
    assert!(reply.is_some());
    assert_eq!(state, 1);
}

#[test]
fn test_gen_agent_cast_message_dispatch() {
    let agent = CounterAgent;

    let msg = json(r#"{"$cast": {"set": 99}}"#);
    let (state, reply) = dispatch_gen_agent_message(&agent, 0i64, msg);
    assert!(reply.is_none());
    assert_eq!(state, 99);
}

#[test]
fn test_gen_agent_code_change_default() {
    let agent = CounterAgent;
    let mut state = 10i64;
    let result = agent.code_change(&mut state, "v1", json("{}"));
    assert!(result.is_ok());
}

// ---- StateMachine tests ----

struct TrafficLight;

impl StateMachine for TrafficLight {
    type Data = u32; // cycle count

    fn init(&self, _args: Json) -> Result<(String, Self::Data), String> {
        Ok(("red".to_string(), 0))
    }

    fn handle_event(&self, state_name: &str, data: &mut Self::Data, _event: Json) -> Transition {
        match state_name {
            "red" => Transition::Next { state: "green".to_string() },
            "green" => Transition::Next { state: "yellow".to_string() },
            "yellow" => {
                *data += 1;
                Transition::Next { state: "red".to_string() }
            }
            _ => Transition::Stop("unknown state".to_string()),
        }
    }
}

#[test]
fn test_state_machine_init() {
    let sm = TrafficLight;
    let (state, data) = sm.init(json("{}")).unwrap();
    assert_eq!(state, "red");
    assert_eq!(data, 0);
}

#[test]
fn test_state_machine_transitions() {
    let sm = TrafficLight;
    let mut data = 0u32;
    let t1 = sm.handle_event("red", &mut data, json("\"tick\""));
    assert!(matches!(t1, Transition::Next { state } if state == "green"));
    let t2 = sm.handle_event("green", &mut data, json("\"tick\""));
    assert!(matches!(t2, Transition::Next { state } if state == "yellow"));
    let t3 = sm.handle_event("yellow", &mut data, json("\"tick\""));
    assert!(matches!(t3, Transition::Next { state } if state == "red"));
    assert_eq!(data, 1);
}

#[test]
fn test_state_machine_code_change_default() {
    let sm = TrafficLight;
    let mut data = 0u32;
    assert!(sm.code_change("red", &mut data, "v1").is_ok());
}

// ---- EventManager tests ----

struct LogHandler {
    id: String,
    count: Arc<AtomicUsize>,
}

impl EventHandler for LogHandler {
    fn handle_event(&self, _event: &Json) -> EventAction {
        self.count.fetch_add(1, Ordering::Relaxed);
        EventAction::Keep
    }
    fn id(&self) -> &str {
        &self.id
    }
}

struct OneShotHandler {
    id: String,
}

impl EventHandler for OneShotHandler {
    fn handle_event(&self, _event: &Json) -> EventAction {
        EventAction::Remove
    }
    fn id(&self) -> &str {
        &self.id
    }
}

#[test]
fn test_event_manager_broadcast() {
    let count = Arc::new(AtomicUsize::new(0));
    let mut em = EventManager::new();
    em.add_handler(LogHandler { id: "log1".to_string(), count: count.clone() });
    em.add_handler(LogHandler { id: "log2".to_string(), count: count.clone() });
    em.notify(&json(r#"{"event": "test"}"#));
    assert_eq!(count.load(Ordering::Relaxed), 2);
}

#[test]
fn test_event_manager_remove_handler() {
    let mut em = EventManager::new();
    let count = Arc::new(AtomicUsize::new(0));
    em.add_handler(LogHandler { id: "h1".to_string(), count: count.clone() });
    assert_eq!(em.handler_count(), 1);
    em.remove_handler("h1");
    assert_eq!(em.handler_count(), 0);
}

#[test]
fn test_event_manager_auto_remove() {
    let mut em = EventManager::new();
    em.add_handler(OneShotHandler { id: "once".to_string() });
    assert_eq!(em.handler_count(), 1);
    em.notify(&json("\"trigger\""));
    assert_eq!(em.handler_count(), 0);
}
