//! Process ids, messages, and what a behavior answers to them.
use vstd::prelude::*;
use crate::util::text;
use crate::json::{Json, JsonV};

verus! {

/// The first id that a source gives out.
pub const FIRST_AGENT_PID: u64 = 0x8000_0000;

/// Gives out process ids, one after the other.
pub struct PidSource {
    next: u64,
}

impl View for PidSource {
    type V = u64;

    closed spec fn view(&self) -> u64 {
        self.next
    }
}

impl PidSource {
    /// A source that has given out nothing yet.
    pub fn new() -> (r: Self)
        ensures
            r@ == FIRST_AGENT_PID,
    {
        PidSource { next: FIRST_AGENT_PID }
    }

    /// A source whose next id is `next`.
    pub fn starting_at(next: u64) -> (r: Self)
        ensures
            r@ == next,
    {
        PidSource { next }
    }

    /// The next id, which is not given out yet.
    pub fn upcoming(&self) -> (r: u64)
        ensures
            r == self@,
    {
        self.next
    }
}

/// The id of an agent process.
#[derive(Debug, Clone, Copy, PartialEq, Eq, Hash, Structural)]
pub struct AgentPid(pub u64);

impl AgentPid {
    /// The next id of a source. The count starts over after the greatest `u64`.
    pub fn new(source: &mut PidSource) -> (r: Self)
        ensures
            r.0 == old(source)@,
            final(source)@ == if old(source)@ == u64::MAX {
                0
            } else {
                old(source)@ + 1
            },
    {
        let raw: u64 = source.next;
        source.next = if raw == u64::MAX { 0 } else { raw + 1 };
        AgentPid(raw)
    }

    /// The process id with the given number.
    pub fn from_raw(raw: u64) -> (r: Self)
        ensures
            r.0 == raw,
    {
        AgentPid(raw)
    }

    /// The number of this id.
    pub fn raw(&self) -> (r: u64)
        ensures
            r == self.0,
    {
        self.0
    }
}

/// Ids given out one after the other differ, as long as the count has not started over.
pub proof fn law_pids_increase(before: u64, first: AgentPid, second: AgentPid)
    requires
        before < u64::MAX,
        first.0 == before,
        second.0 == before + 1,
    ensures
        first != second,
        first.0 < second.0,
{
}

/// Names one monitor that a process holds on another.
#[derive(Debug, Clone, Copy, PartialEq, Eq, Hash, Structural)]
pub struct MonitorRef(pub u64);

/// Why a process ends.
#[derive(Debug, PartialEq, Eq)]
pub enum Reason {
    Normal,
    Shutdown,
    Custom(String),
}

/// What a reason is.
pub enum ReasonV {
    Normal,
    Shutdown,
    Custom(Seq<char>),
}

impl View for Reason {
    type V = ReasonV;

    open spec fn view(&self) -> ReasonV {
        match self {
            Reason::Normal => ReasonV::Normal,
            Reason::Shutdown => ReasonV::Shutdown,
            Reason::Custom(s) => ReasonV::Custom(s@),
        }
    }
}

impl Clone for Reason {
    fn clone(&self) -> (r: Self)
        ensures
            r == *self,
    {
        match self {
            Reason::Normal => Reason::Normal,
            Reason::Shutdown => Reason::Shutdown,
            Reason::Custom(s) => Reason::Custom(s.clone()),
        }
    }
}

/// What became of an input or output operation.
#[derive(Debug, PartialEq, Eq)]
pub enum IoResult {
    Done(Json),
    Error(String),
    Timeout,
}

/// What an operation's result is.
pub enum IoResultV {
    Done(JsonV),
    Error(Seq<char>),
    Timeout,
}

impl View for IoResult {
    type V = IoResultV;

    open spec fn view(&self) -> IoResultV {
        match self {
            IoResult::Done(j) => IoResultV::Done(j@),
            IoResult::Error(s) => IoResultV::Error(s@),
            IoResult::Timeout => IoResultV::Timeout,
        }
    }
}

/// A message of the runtime itself.
#[allow(inconsistent_fields)]
#[derive(Debug, PartialEq, Eq)]
pub enum SystemMsg {
    /// A linked process has ended.
    Exit { from: u64, reason: Reason },
    /// An operation that the process asked for is done.
    IoResponse { correlation_id: u64, result: IoResult },
    /// A process that this one asked for is there.
    SpawnResult { child_pid: u64, monitor_ref: Option<u64> },
    /// A monitored process has ended.
    Down { monitor_ref: u64, pid: u64, reason: Reason },
    /// The process has waited too long.
    ReceiveTimeout,
}

/// What a message of the runtime is.
#[allow(inconsistent_fields)]
pub enum SystemMsgV {
    Exit { from: u64, reason: ReasonV },
    IoResponse { correlation_id: u64, result: IoResultV },
    SpawnResult { child_pid: u64, monitor_ref: Option<u64> },
    Down { monitor_ref: u64, pid: u64, reason: ReasonV },
    ReceiveTimeout,
}

impl View for SystemMsg {
    type V = SystemMsgV;

    open spec fn view(&self) -> SystemMsgV {
        match self {
            SystemMsg::Exit { from, reason } => SystemMsgV::Exit { from: *from, reason: reason@ },
            SystemMsg::IoResponse { correlation_id, result } => SystemMsgV::IoResponse {
                correlation_id: *correlation_id,
                result: result@,
            },
            SystemMsg::SpawnResult { child_pid, monitor_ref } => SystemMsgV::SpawnResult {
                child_pid: *child_pid,
                monitor_ref: *monitor_ref,
            },
            SystemMsg::Down { monitor_ref, pid, reason } => SystemMsgV::Down {
                monitor_ref: *monitor_ref,
                pid: *pid,
                reason: reason@,
            },
            SystemMsg::ReceiveTimeout => SystemMsgV::ReceiveTimeout,
        }
    }
}

/// A message to a process.
#[derive(Debug, PartialEq, Eq)]
pub enum Message {
    Text(String),
    Json(Json),
    System(SystemMsg),
}

/// What a message is.
pub enum MessageV {
    Text(Seq<char>),
    Json(JsonV),
    System(SystemMsgV),
}

impl View for Message {
    type V = MessageV;

    open spec fn view(&self) -> MessageV {
        match self {
            Message::Text(s) => MessageV::Text(s@),
            Message::Json(j) => MessageV::Json(j@),
            Message::System(m) => MessageV::System(m@),
        }
    }
}

/// An operation that a process asks the runtime for.
#[derive(Debug, PartialEq, Eq)]
pub enum IoOp {
    HttpRequest { method: String, url: String, body: Option<Vec<u8>> },
    Timer { duration_ms: u64 },
    /// An operation known by its kind.
    Custom { kind: String, payload: Json },
    /// A conversation with a language model.
    AgentChat {
        provider: String,
        model: Option<String>,
        system_prompt: Option<String>,
        prompt: String,
        tools: Option<Vec<String>>,
        max_iterations: Option<usize>,
        timeout_ms: Option<u64>,
    },
}

/// What an operation is.
pub enum IoOpV {
    HttpRequest { method: Seq<char>, url: Seq<char>, body: Option<Seq<u8>> },
    Timer { duration_ms: u64 },
    Custom { kind: Seq<char>, payload: JsonV },
    AgentChat {
        provider: Seq<char>,
        model: Option<Seq<char>>,
        system_prompt: Option<Seq<char>>,
        prompt: Seq<char>,
        tools: Option<Seq<Seq<char>>>,
        max_iterations: Option<usize>,
        timeout_ms: Option<u64>,
    },
}

/// What an optional string is.
pub open spec fn opt_str(o: Option<String>) -> Option<Seq<char>> {
    match o {
        Some(s) => Some(s@),
        None => None,
    }
}

/// What an optional list of strings is.
pub open spec fn opt_strs(o: Option<Vec<String>>) -> Option<Seq<Seq<char>>> {
    match o {
        Some(v) => Some(text::strings_view(v@)),
        None => None,
    }
}

impl View for IoOp {
    type V = IoOpV;

    open spec fn view(&self) -> IoOpV {
        match self {
            IoOp::HttpRequest { method, url, body } => IoOpV::HttpRequest {
                method: method@,
                url: url@,
                body: match body {
                    Some(b) => Some(b@),
                    None => None,
                },
            },
            IoOp::Timer { duration_ms } => IoOpV::Timer { duration_ms: *duration_ms },
            IoOp::Custom { kind, payload } => IoOpV::Custom { kind: kind@, payload: payload@ },
            IoOp::AgentChat {
                provider,
                model,
                system_prompt,
                prompt,
                tools,
                max_iterations,
                timeout_ms,
            } => IoOpV::AgentChat {
                provider: provider@,
                model: opt_str(*model),
                system_prompt: opt_str(*system_prompt),
                prompt: prompt@,
                tools: opt_strs(*tools),
                max_iterations: *max_iterations,
                timeout_ms: *timeout_ms,
            },
        }
    }
}

/// What a process wants done after a message.
#[derive(Debug)]
pub enum Action<B> {
    Continue,
    Send { to: AgentPid, msg: Message },
    IoRequest(IoOp),
    Spawn { behavior: B, args: Json, link: bool, monitor: bool },
    Stop(Reason),
}

/// What an action is.
pub enum ActionV<B> {
    Continue,
    Send { to: AgentPid, msg: MessageV },
    IoRequest(IoOpV),
    Spawn { behavior: B, args: JsonV, link: bool, monitor: bool },
    Stop(ReasonV),
}

impl<B> View for Action<B> {
    type V = ActionV<B>;

    open spec fn view(&self) -> ActionV<B> {
        match self {
            Action::Continue => ActionV::Continue,
            Action::Send { to, msg } => ActionV::Send { to: *to, msg: msg@ },
            Action::IoRequest(op) => ActionV::IoRequest(op@),
            Action::Spawn { behavior, args, link, monitor } => ActionV::Spawn {
                behavior: *behavior,
                args: args@,
                link: *link,
                monitor: *monitor,
            },
            Action::Stop(r) => ActionV::Stop(r@),
        }
    }
}

/// How a kind of process behaves. Users of the library write behaviors of their own; nothing
/// is assumed of what they answer.
pub trait AgentBehavior: Sized {
    /// What a process of this behavior keeps between messages.
    type State;

    /// The state that a process starts with.
    fn init(&self, args: Json) -> (r: Result<Self::State, Reason>);

    /// Takes one message.
    fn handle_message(&self, msg: Message, state: &mut Self::State) -> (r: Action<Self>);

    /// Learns that a linked process has ended.
    fn handle_exit(&self, from: AgentPid, reason: Reason, state: &mut Self::State) -> (r: Action<
        Self,
    >);

    /// The process ends.
    fn terminate(&self, reason: Reason, state: &mut Self::State);
}

} // verus!
