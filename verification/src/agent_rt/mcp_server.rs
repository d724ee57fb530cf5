//! The server: its sessions, and its answers to requests.
use vstd::prelude::*;
use crate::agent_rt::mcp_jsonrpc;
use crate::agent_rt::mcp_jsonrpc::{dup_opt, JsonRpcRequest, JsonRpcResponse, RequestV, ResponseV};
use crate::agent_rt::mcp_types;
use crate::agent_rt::mcp_types::error_codes;
use crate::agent_rt::mcp_types::{
    cancel_process_schema, get_metrics_schema, get_orchestration_status_schema,
    list_processes_schema, send_message_schema, spawn_orchestration_schema, CancelProcessResult,
    GetMetricsResult, Implementation, InitializeParams, InitializeResult, ListProcessesResult,
    OrchestrationStatusResult, ProcessInfo, ProcessInfoV, SendMessageResult, ServerCapabilities,
    SpawnOrchestrationResult, ToolContent, ToolInfo, ToolV, ToolsCallParams, ToolsCallResult,
    ToolsCapability, ToolsListParams, ToolsListResult,
};
use crate::agent_rt::observability;
use crate::agent_rt::observability::{ProcessSnapshot, RuntimeMetrics, RuntimeMetricsSnapshot};
use crate::agent_rt::process::{Priority, ProcV, ProcessStatus};
use crate::agent_rt::rate_limiter;
use crate::agent_rt::scheduler;
use crate::agent_rt::scheduler::{AgentScheduler, SchedV};
use crate::agent_rt::types;
use crate::agent_rt::types::{AgentBehavior, AgentPid, Message, MessageV, Reason, ReasonV};
use crate::json;
use crate::json::{Json, JsonV, ObjectBuilder};
use crate::util::assoc::{AssocMap, MapKey};
use crate::util::text;
use crate::util::text::{concat2, concat3, parse_u64, str_eq, u64_to_hex};

verus! {

/// The version of the protocol that the server speaks.
pub const SUPPORTED_PROTOCOL_VERSION: &'static str = "2024-11-05";

// ---------------------------------------------------------------------------
// Names of sessions
// ---------------------------------------------------------------------------
/// Gives out names, one after the other.
pub struct UuidSource {
    pub next: u64,
}

/// The name of a number: parts of it, then all of it, in hexadecimal.
pub open spec fn uuid_text(id: u64) -> Seq<char> {
    text::hex_padded((id >> 32) as nat, 8) + "-"@ + text::hex_padded(
        ((id >> 16) & 0xffff) as nat,
        4,
    ) + "-"@ + text::hex_padded((id & 0xffff) as nat, 4) + "-"@ + text::hex_padded(
        (0x8000 | (id & 0x3fff)) as nat,
        4,
    ) + "-"@ + text::hex_padded(id as nat, 12)
}

/// The number after `id`; the count starts over after the greatest `u64`.
pub open spec fn next_id(id: u64) -> u64 {
    if id == u64::MAX {
        0
    } else {
        (id + 1) as u64
    }
}

impl UuidSource {
    /// A source that has given out nothing yet.
    pub fn new() -> (r: Self)
        ensures
            r.next == 1,
    {
        UuidSource { next: 1 }
    }
}

/// The next name of a source.
pub fn generate_uuid(source: &mut UuidSource) -> (r: String)
    ensures
        r@ == uuid_text(old(source).next),
        final(source).next == next_id(old(source).next),
{
    let id: u64 = source.next;
    source.next = if id == u64::MAX { 0 } else { id + 1 };
    let mut s: String = u64_to_hex(id >> 32, 8);
    s.append("-");
    let b: String = u64_to_hex((id >> 16) & 0xffff, 4);
    s.append(b.as_str());
    s.append("-");
    let c: String = u64_to_hex(id & 0xffff, 4);
    s.append(c.as_str());
    s.append("-");
    let d: String = u64_to_hex(0x8000 | (id & 0x3fff), 4);
    s.append(d.as_str());
    s.append("-");
    let e: String = u64_to_hex(id, 12);
    s.append(e.as_str());
    s
}

/// Different numbers have different names.
pub proof fn law_names_differ(a: u64, b: u64)
    requires
        a != b,
    ensures
        uuid_text(a) != uuid_text(b),
{
    lemma_uuid_tail(a);
    lemma_uuid_tail(b);
    text::law_hex_reads_back(a as nat, 12);
    text::law_hex_reads_back(b as nat, 12);
}

proof fn lemma_uuid_tail(id: u64)
    ensures
        uuid_text(id).len() >= 24,
        uuid_text(id).skip(24) == text::hex_padded(id as nat, 12),
{
    let p = id >> 32;
    let q = (id >> 16) & 0xffff;
    let r = id & 0xffff;
    let t = 0x8000 | (id & 0x3fff);
    assert(p < 0x1_0000_0000u64) by (bit_vector)
        requires
            p == id >> 32,
    ;
    assert(q < 0x1_0000u64) by (bit_vector)
        requires
            q == (id >> 16) & 0xffff,
    ;
    assert(r < 0x1_0000u64) by (bit_vector)
        requires
            r == id & 0xffff,
    ;
    assert(t < 0x1_0000u64) by (bit_vector)
        requires
            t == 0x8000 | (id & 0x3fff),
    ;
    assert(vstd::arithmetic::power::pow(16, 8) == 0x1_0000_0000) by {
        reveal_with_fuel(vstd::arithmetic::power::pow, 9);
    }
    assert(vstd::arithmetic::power::pow(16, 4) == 0x1_0000) by {
        reveal_with_fuel(vstd::arithmetic::power::pow, 5);
    }
    text::lemma_hex_len(p as nat, 8, 0x1_0000_0000);
    text::lemma_hex_len(q as nat, 4, 0x1_0000);
    text::lemma_hex_len(r as nat, 4, 0x1_0000);
    text::lemma_hex_len(t as nat, 4, 0x1_0000);
    reveal_strlit("-");
    let a = text::hex_padded(p as nat, 8);
    let b = text::hex_padded(q as nat, 4);
    let c = text::hex_padded(r as nat, 4);
    let d = text::hex_padded(t as nat, 4);
    assert(a.len() == 8 && b.len() == 4 && c.len() == 4 && d.len() == 4);
    let head = a + "-"@ + b + "-"@ + c + "-"@ + d + "-"@;
    assert(head.len() == 24);
    let tail = text::hex_padded(id as nat, 12);
    assert(uuid_text(id) == head + tail);
    assert((head + tail).skip(24) =~= tail);
}

// ---------------------------------------------------------------------------
// Sessions
// ---------------------------------------------------------------------------
/// A client that the server knows. Times are in nanoseconds.
#[derive(Debug, PartialEq, Eq)]
pub struct McpSession {
    pub id: String,
    pub created_at: u128,
    pub last_active: u128,
    pub initialized: bool,
}

/// What a session is.
#[verifier::ext_equal]
pub struct SessionV {
    pub id: Seq<char>,
    pub created_at: u128,
    pub last_active: u128,
    pub initialized: bool,
}

impl View for McpSession {
    type V = SessionV;

    open spec fn view(&self) -> SessionV {
        SessionV {
            id: self.id@,
            created_at: self.created_at,
            last_active: self.last_active,
            initialized: self.initialized,
        }
    }
}

/// A session that has just begun.
pub open spec fn new_session(id: Seq<char>, now: u128) -> SessionV {
    SessionV { id, created_at: now, last_active: now, initialized: false }
}

/// A session that is used at `now`.
pub open spec fn touched(s: SessionV, now: u128) -> SessionV {
    SessionV { last_active: now, ..s }
}

/// A session has not been used for longer than the given time.
pub open spec fn expired(s: SessionV, timeout: u128, now: u128) -> bool {
    rate_limiter::since(now, s.last_active) > timeout
}

impl McpSession {
    /// A session that begins at `now`.
    pub fn new(id: &str, now: u128) -> (r: Self)
        ensures
            r@ == new_session(id@, now),
    {
        McpSession { id: id.to_owned(), created_at: now, last_active: now, initialized: false }
    }

    /// The session is used at `now`.
    pub fn touch(&mut self, now: u128)
        ensures
            final(self)@ == touched(old(self)@, now),
    {
        self.last_active = now;
    }

    /// The session may be used.
    pub fn mark_initialized(&mut self)
        ensures
            final(self)@ == (SessionV { initialized: true, ..old(self)@ }),
    {
        self.initialized = true;
    }

    /// Whether the session has not been used for longer than the given time.
    pub fn is_expired(&self, timeout: u128, now: u128) -> (r: bool)
        ensures
            r == expired(self@, timeout, now),
    {
        let passed: u128 = if self.last_active <= now {
            now - self.last_active
        } else {
            0
        };
        passed > timeout
    }

    /// A copy of this session.
    pub fn dup(&self) -> (r: Self)
        ensures
            r@ == self@,
    {
        McpSession {
            id: self.id.clone(),
            created_at: self.created_at,
            last_active: self.last_active,
            initialized: self.initialized,
        }
    }
}

// ---------------------------------------------------------------------------
// The runtime behind the server
// ---------------------------------------------------------------------------
/// What the server has of the runtime.
pub struct RuntimeHandle<B: AgentBehavior> {
    pub scheduler: AgentScheduler<B>,
    pub metrics: RuntimeMetrics,
}

/// What a handle on the runtime is.
pub struct HandleV<B: AgentBehavior> {
    pub sched: SchedV<B>,
    pub metrics: RuntimeMetrics,
}

impl<B: AgentBehavior> View for RuntimeHandle<B> {
    type V = HandleV<B>;

    open spec fn view(&self) -> HandleV<B> {
        HandleV { sched: self.scheduler@, metrics: self.metrics }
    }
}

/// The name of where a process stands.
pub open spec fn status_name(s: ProcessStatus) -> Seq<char> {
    match s {
        ProcessStatus::Runnable => "Runnable"@,
        ProcessStatus::Waiting => "Waiting"@,
        ProcessStatus::Suspended => "Suspended"@,
        ProcessStatus::Exiting => "Exiting"@,
    }
}

/// The name of how urgent a process is.
pub open spec fn priority_name(p: Priority) -> Seq<char> {
    match p {
        Priority::High => "High"@,
        Priority::Normal => "Normal"@,
        Priority::Low => "Low"@,
    }
}

/// What is listed of a process.
pub open spec fn info_of<B: AgentBehavior>(p: ProcV<B>) -> ProcessInfoV {
    ProcessInfoV {
        pid: p.pid.0,
        status: status_name(p.status),
        priority: priority_name(p.priority),
        mailbox_depth: p.mailbox.len(),
    }
}

/// A list shows every process once.
pub open spec fn lists<B: AgentBehavior>(infos: Seq<ProcessInfoV>, s: SchedV<B>) -> bool {
    exists|pids: Seq<AgentPid>| #[trigger]
        scheduler::names_each(pids, s) && pids.len() == infos.len() && forall|i: int|
            0 <= i < infos.len() ==> #[trigger] infos[i] == info_of(s.reg.procs[pids[i].0])
}

fn status_text(s: ProcessStatus) -> (r: String)
    ensures
        r@ == status_name(s),
{
    match s {
        ProcessStatus::Runnable => "Runnable".to_owned(),
        ProcessStatus::Waiting => "Waiting".to_owned(),
        ProcessStatus::Suspended => "Suspended".to_owned(),
        ProcessStatus::Exiting => "Exiting".to_owned(),
    }
}

fn priority_text(p: Priority) -> (r: String)
    ensures
        r@ == priority_name(p),
{
    match p {
        Priority::High => "High".to_owned(),
        Priority::Normal => "Normal".to_owned(),
        Priority::Low => "Low".to_owned(),
    }
}

impl<B: AgentBehavior> RuntimeHandle<B> {
    /// A handle on a scheduler and its counters.
    pub fn new(scheduler: AgentScheduler<B>, metrics: RuntimeMetrics) -> (r: Self)
        ensures
            r.scheduler == scheduler,
            r.metrics == metrics,
    {
        RuntimeHandle { scheduler, metrics }
    }

    /// What the counters show at `now`.
    pub fn metrics_snapshot(&self, now: u128) -> (r: RuntimeMetricsSnapshot)
        requires
            self.scheduler.wf(),
        ensures
            shows_metrics(r, self@, now),
    {
        let n: usize = self.scheduler.registry.count();
        self.metrics.snapshot(n, now)
    }

    /// The processes that there are.
    pub fn list_processes(&self) -> (r: Vec<ProcessInfo>)
        requires
            self.scheduler.wf(),
        ensures
            lists(mcp_types::processes_view(r@), self@.sched),
    {
        let snaps: Vec<ProcessSnapshot> = self.scheduler.list_processes();
        let ghost pids = choose|pids: Seq<AgentPid>| #[trigger]
            scheduler::names_each(pids, self@.sched) && pids.len() == snaps@.len() && forall|i: int|
                0 <= i < snaps@.len() ==> observability::shows(
                    #[trigger] snaps@[i],
                    self@.sched.reg.procs[pids[i].0],
                );
        let mut out: Vec<ProcessInfo> = Vec::new();
        let mut i: usize = 0;
        while i < snaps.len()
            invariant
                i <= snaps@.len(),
                out@.len() == i,
                pids.len() == snaps@.len(),
                forall|j: int|
                    0 <= j < snaps@.len() ==> observability::shows(
                        #[trigger] snaps@[j],
                        self@.sched.reg.procs[pids[j].0],
                    ),
                forall|j: int|
                    0 <= j < i ==> (#[trigger] out@[j])@ == info_of(
                        self@.sched.reg.procs[pids[j].0],
                    ),
            decreases snaps@.len() - i,
        {
            let s: ProcessSnapshot = snaps[i];
            assert(observability::shows(snaps@[i as int], self@.sched.reg.procs[pids[i as int].0]));
            out.push(
                ProcessInfo {
                    pid: s.pid,
                    status: status_text(s.status),
                    priority: priority_text(s.priority),
                    mailbox_depth: s.mailbox_depth,
                },
            );
            i += 1;
        }
        proof {
            let infos = mcp_types::processes_view(out@);
            assert forall|j: int| 0 <= j < infos.len() implies #[trigger] infos[j] == info_of(
                self@.sched.reg.procs[pids[j].0],
            ) by {
                assert(infos[j] == out@[j]@);
            }
            assert(scheduler::names_each(pids, self@.sched));
        }
        out
    }

    /// Sends a message to a process.
    pub fn send_message(&mut self, pid: u64, message: Message) -> (r: Result<(), String>)
        requires
            old(self).scheduler.wf(),
        ensures
            final(self).scheduler.wf(),
            final(self)@ == (HandleV {
                sched: scheduler::sent(old(self)@.sched, AgentPid(pid), message),
                ..old(self)@
            }),
            r is Ok <==> old(self)@.sched.reg.procs.dom().contains(pid),
            r matches Err(e) ==> e@ == scheduler::not_found_text(AgentPid(pid)),
    {
        self.scheduler.send(AgentPid::from_raw(pid), message)
    }

    /// Ends a process.
    pub fn terminate_process(&mut self, pid: u64, reason: Reason)
        requires
            old(self).scheduler.wf(),
        ensures
            final(self).scheduler.wf(),
            final(self)@ == (HandleV {
                sched: scheduler::ended(old(self)@.sched, AgentPid(pid), reason),
                ..old(self)@
            }),
            scheduler::told(old(self)@.sched, AgentPid(pid), reason),
    {
        self.scheduler.terminate_process(AgentPid::from_raw(pid), reason);
    }

    /// How many processes there are.
    pub fn process_count(&self) -> (r: usize)
        requires
            self.scheduler.wf(),
        ensures
            r == self@.sched.reg.procs.dom().len(),
    {
        self.scheduler.registry.count()
    }
}

/// A snapshot shows the counters of a runtime.
pub open spec fn shows_metrics<B: AgentBehavior>(
    r: RuntimeMetricsSnapshot,
    h: HandleV<B>,
    now: u128,
) -> bool {
    &&& r.uptime_secs == observability::secs_since(h.metrics.started_at, now)
    &&& r.active_processes == h.sched.reg.procs.dom().len()
    &&& r.messages_sent_total == h.metrics.messages_sent_total
    &&& r.messages_processed_total == h.metrics.messages_processed_total
    &&& r.mailbox_rejections_total == h.metrics.mailbox_rejections_total
    &&& r.io_requests_total == h.metrics.io_requests_total
    &&& r.io_responses_total == h.metrics.io_responses_total
    &&& r.io_errors_total == h.metrics.io_errors_total
    &&& r.io_timeouts_total == h.metrics.io_timeouts_total
    &&& r.io_latency_samples == h.metrics.io_latency_samples
    &&& r.io_latency_total_ms == h.metrics.io_latency_total_ms
    &&& r.rate_limiter_waits_total == h.metrics.rate_limiter_waits_total
    &&& r.rate_limiter_wait_ms_total == h.metrics.rate_limiter_wait_ms_total
    &&& r.rate_limiter_rejections_total == h.metrics.rate_limiter_rejections_total
    &&& r.process_terminations_total == h.metrics.process_terminations_total
}

// ---------------------------------------------------------------------------
// The state of the server
// ---------------------------------------------------------------------------
/// What the server keeps: its sessions, who may use it, and the runtime behind it.
pub struct McpServerState<B: AgentBehavior> {
    pub sessions: AssocMap<String, McpSession>,
    pub auth_token: Option<String>,
    pub session_timeout: u128,
    pub runtime_handle: RuntimeHandle<B>,
    pub uuids: UuidSource,
}

/// What the server's state is.
#[verifier::ext_equal]
pub struct ServerV<B: AgentBehavior> {
    pub sessions: Map<Seq<char>, SessionV>,
    pub auth_token: Option<Seq<char>>,
    pub session_timeout: u128,
    pub runtime: HandleV<B>,
    pub next_uuid: u64,
}

/// What sessions are.
pub open spec fn sessions_view(m: Map<Seq<char>, McpSession>) -> Map<Seq<char>, SessionV> {
    m.map_values(|s: McpSession| s@)
}

impl<B: AgentBehavior> View for McpServerState<B> {
    type V = ServerV<B>;

    open spec fn view(&self) -> ServerV<B> {
        ServerV {
            sessions: sessions_view(self.sessions@),
            auth_token: types::opt_str(self.auth_token),
            session_timeout: self.session_timeout,
            runtime: self.runtime_handle@,
            next_uuid: self.uuids.next,
        }
    }
}

/// Every session is kept under its own name.
pub open spec fn under_own_name(m: Map<Seq<char>, SessionV>) -> bool {
    forall|k: Seq<char>| #[trigger] m.dom().contains(k) ==> m[k].id == k
}

/// The sessions without those that have expired.
pub open spec fn alive(m: Map<Seq<char>, SessionV>, timeout: u128, now: u128) -> Map<
    Seq<char>,
    SessionV,
> {
    m.restrict(Set::new(|k: Seq<char>| m.dom().contains(k) && !expired(m[k], timeout, now)))
}

/// The tools that the server lists.
pub open spec fn listed_tools() -> Seq<ToolV> {
    seq![
        mcp_types::described(
            "spawn_orchestration"@,
            "Start a new orchestration with a goal"@,
            mcp_types::spawn_orchestration_schema_v(),
        ),
        mcp_types::described(
            "get_orchestration_status"@,
            "Check status/results of an orchestration"@,
            mcp_types::get_orchestration_status_schema_v(),
        ),
        mcp_types::described(
            "list_processes"@,
            "List active agent processes"@,
            mcp_types::no_arguments_v(),
        ),
        mcp_types::described(
            "send_message"@,
            "Send a message to a process by PID"@,
            mcp_types::send_message_schema_v(),
        ),
        mcp_types::described(
            "get_metrics"@,
            "Get runtime metrics snapshot"@,
            mcp_types::no_arguments_v(),
        ),
        mcp_types::described(
            "cancel_process"@,
            "Terminate a process by PID"@,
            mcp_types::cancel_process_schema_v(),
        ),
    ]
}

fn tool(name: &str, description: &str, schema: Json) -> (r: ToolInfo)
    ensures
        r@ == mcp_types::described(name@, description@, schema@),
{
    match ToolInfo::new(name, schema) {
        Ok(t) => t.with_description(description),
        Err(_) => ToolInfo { name: String::new(), description: None, input_schema: None },
    }
}

proof fn lemma_insert_session(m: Map<Seq<char>, McpSession>, k: Seq<char>, s: McpSession)
    ensures
        sessions_view(m.insert(k, s)) == sessions_view(m).insert(k, s@),
{
    assert(sessions_view(m.insert(k, s)) =~= sessions_view(m).insert(k, s@));
}

impl<B: AgentBehavior> McpServerState<B> {
    /// The scheduler is sound, and every session is kept under its own name.
    pub open spec fn wf(&self) -> bool {
        self.runtime_handle.scheduler.wf() && under_own_name(self@.sessions)
    }

    /// A server without sessions. The names of sessions start with the first one: servers beside
    /// each other get sources of their own, see [`McpServerState::with_uuids`].
    pub fn new(
        auth_token: Option<String>,
        session_timeout: u128,
        runtime_handle: RuntimeHandle<B>,
    ) -> (r: Self)
        requires
            runtime_handle.scheduler.wf(),
        ensures
            r.wf(),
            r@ == (ServerV {
                sessions: Map::empty(),
                auth_token: types::opt_str(auth_token),
                session_timeout,
                runtime: runtime_handle@,
                next_uuid: 1,
            }),
    {
        Self::with_uuids(auth_token, session_timeout, runtime_handle, UuidSource::new())
    }

    /// A server without sessions; their names come from the given source.
    pub fn with_uuids(
        auth_token: Option<String>,
        session_timeout: u128,
        runtime_handle: RuntimeHandle<B>,
        uuids: UuidSource,
    ) -> (r: Self)
        requires
            runtime_handle.scheduler.wf(),
        ensures
            r.wf(),
            r@ == (ServerV {
                sessions: Map::empty(),
                auth_token: types::opt_str(auth_token),
                session_timeout,
                runtime: runtime_handle@,
                next_uuid: uuids.next,
            }),
    {
        let r = McpServerState {
            sessions: AssocMap::new(),
            auth_token,
            session_timeout,
            runtime_handle,
            uuids,
        };
        assert(r@.sessions =~= Map::empty());
        r
    }

    /// Begins a session, and gives its name.
    pub fn create_session(&mut self, now: u128) -> (r: String)
        requires
            old(self).wf(),
        ensures
            final(self).wf(),
            r@ == uuid_text(old(self)@.next_uuid),
            final(self)@ == (ServerV {
                sessions: old(self)@.sessions.insert(r@, new_session(r@, now)),
                next_uuid: next_id(old(self)@.next_uuid),
                ..old(self)@
            }),
    {
        let id: String = generate_uuid(&mut self.uuids);
        let s: McpSession = McpSession::new(id.as_str(), now);
        proof {
            lemma_insert_session(self.sessions@, id@, s);
        }
        self.sessions.insert(id.clone(), s);
        id
    }

    /// Drops the sessions that have expired at `now`.
    fn drop_expired(&mut self, now: u128)
        requires
            old(self).wf(),
        ensures
            final(self).wf(),
            final(self)@ == (ServerV {
                sessions: alive(old(self)@.sessions, old(self)@.session_timeout, now),
                ..old(self)@
            }),
    {
        let ghost m = self@.sessions;
        let ghost timeout = self.session_timeout;
        let ghost goal = alive(m, timeout, now);
        self.sessions.facts();
        let ghost ord = self.sessions.order();
        let mut kept: AssocMap<String, McpSession> = AssocMap::new();
        let n: usize = self.sessions.len();
        let mut i: usize = 0;
        while i < n
            invariant
                i <= n,
                n == ord.len(),
                ord == self.sessions.order(),
                self@ == old(self)@,
                self.runtime_handle == old(self).runtime_handle,
                m == self@.sessions,
                timeout == self.session_timeout,
                goal == alive(m, timeout, now),
                forall|j: int|
                    0 <= j < ord.len() ==> self.sessions@.dom().contains(
                        (#[trigger] ord[j]).0.id(),
                    ) && self.sessions@[ord[j].0.id()] == ord[j].1,
                forall|k: Seq<char>| #[trigger]
                    kept@.dom().contains(k) ==> goal.dom().contains(k) && kept@[k]@ == goal[k],
                forall|j: int|
                    0 <= j < i && goal.dom().contains((#[trigger] ord[j]).0.id())
                        ==> kept@.dom().contains(ord[j].0.id()),
            decreases n - i,
        {
            let (k, s) = self.sessions.entry(i);
            assert(ord[i as int].0 == *k);
            assert(m.dom().contains(k.id()) && m[k.id()] == s@);
            if !s.is_expired(self.session_timeout, now) {
                kept.insert(k.clone(), s.dup());
            }
            i += 1;
        }
        proof {
            assert forall|k: Seq<char>| #[trigger] goal.dom().contains(k) implies kept@.dom().contains(
                k,
            ) by {
                assert(self.sessions@.dom().contains(k));
                let j = choose|j: int| 0 <= j < ord.len() && (#[trigger] ord[j]).0.id() == k;
                assert(goal.dom().contains(ord[j].0.id()));
            }
            assert(sessions_view(kept@) =~= goal);
        }
        self.sessions = kept;
    }

    /// The session of a name, unless it has expired. Sessions that have expired are dropped.
    pub fn get_session(&mut self, session_id: &str, now: u128) -> (r: Option<McpSession>)
        requires
            old(self).wf(),
        ensures
            final(self).wf(),
            final(self)@ == (ServerV {
                sessions: alive(old(self)@.sessions, old(self)@.session_timeout, now),
                ..old(self)@
            }),
            r is Some <==> final(self)@.sessions.dom().contains(session_id@),
            r matches Some(s) ==> s@ == final(self)@.sessions[session_id@],
    {
        self.drop_expired(now);
        match self.sessions.get_str(session_id) {
            Some(s) => Some(s.dup()),
            None => None,
        }
    }

    /// Keeps a session, which is used at `now`.
    pub fn update_session(&mut self, session: McpSession, now: u128)
        requires
            old(self).wf(),
        ensures
            final(self).wf(),
            final(self)@ == (ServerV {
                sessions: old(self)@.sessions.insert(
                    session.id@,
                    (SessionV { last_active: now, ..session@ }),
                ),
                ..old(self)@
            }),
    {
        let mut s = session;
        s.touch(now);
        proof {
            lemma_insert_session(self.sessions@, s.id@, s);
        }
        self.sessions.insert(s.id.clone(), s);
    }

    /// Drops a session. True where there was one.
    pub fn remove_session(&mut self, session_id: &str) -> (r: bool)
        requires
            old(self).wf(),
        ensures
            final(self).wf(),
            r == old(self)@.sessions.dom().contains(session_id@),
            final(self)@ == (ServerV {
                sessions: old(self)@.sessions.remove(session_id@),
                ..old(self)@
            }),
    {
        let ghost before = self.sessions@;
        let was: Option<McpSession> = self.sessions.remove_str(session_id);
        assert(sessions_view(self.sessions@) =~= sessions_view(before).remove(session_id@));
        match was {
            Some(_) => true,
            None => false,
        }
    }

    /// The name of a session that no other began after, if there is one.
    pub fn most_recent_session_id(&self) -> (r: Option<String>)
        requires
            self.wf(),
        ensures
            r is None <==> self@.sessions.dom().len() == 0,
            r matches Some(id) ==> self@.sessions.dom().contains(id@) && forall|k: Seq<char>| #[trigger]
                self@.sessions.dom().contains(k) ==> self@.sessions[k].created_at
                    <= self@.sessions[id@].created_at,
    {
        self.sessions.facts();
        let ghost ord = self.sessions.order();
        assert(self@.sessions.dom() =~= self.sessions@.dom());
        let n: usize = self.sessions.len();
        if n == 0 {
            return None;
        }
        let mut best: usize = 0;
        let mut i: usize = 1;
        while i < n
            invariant
                best < i <= n,
                n == ord.len(),
                ord == self.sessions.order(),
                forall|j: int|
                    0 <= j < i ==> (#[trigger] ord[j]).1.created_at <= ord[best as int].1.created_at,
            decreases n - i,
        {
            let (_, s) = self.sessions.entry(i);
            let (_, b) = self.sessions.entry(best);
            if s.created_at >= b.created_at {
                best = i;
            }
            i += 1;
        }
        let (key, s) = self.sessions.entry(best);
        proof {
            assert(self@.sessions.dom().contains(key.id()));
            assert(self@.sessions[key.id()].id == key.id());
            assert forall|k: Seq<char>| #[trigger]
                self@.sessions.dom().contains(k) implies self@.sessions[k].created_at
                <= self@.sessions[s.id@].created_at by {
                assert(self.sessions@.dom().contains(k));
                let j = choose|j: int| 0 <= j < ord.len() && (#[trigger] ord[j]).0.id() == k;
                assert(self.sessions@[ord[j].0.id()] == ord[j].1);
            }
        }
        Some(s.id.clone())
    }

    /// Whether a client with this token may use the server.
    pub fn verify_auth(&self, token: Option<&str>) -> (r: bool)
        ensures
            r == match self@.auth_token {
                None => true,
                Some(expected) => token matches Some(t) && t@ == expected,
            },
    {
        match &self.auth_token {
            None => true,
            Some(expected) => match token {
                Some(t) => str_eq(t, expected.as_str()),
                None => false,
            },
        }
    }

    /// The tools that the server lists.
    pub fn get_available_tools(&self) -> (r: Vec<ToolInfo>)
        ensures
            mcp_types::tools_view(r@) == listed_tools(),
    {
        let mut v: Vec<ToolInfo> = Vec::new();
        v.push(
            tool(
                "spawn_orchestration",
                "Start a new orchestration with a goal",
                spawn_orchestration_schema(),
            ),
        );
        v.push(
            tool(
                "get_orchestration_status",
                "Check status/results of an orchestration",
                get_orchestration_status_schema(),
            ),
        );
        v.push(tool("list_processes", "List active agent processes", list_processes_schema()));
        v.push(tool("send_message", "Send a message to a process by PID", send_message_schema()));
        v.push(tool("get_metrics", "Get runtime metrics snapshot", get_metrics_schema()));
        v.push(tool("cancel_process", "Terminate a process by PID", cancel_process_schema()));
        assert(mcp_types::tools_view(v@) =~= listed_tools());
        v
    }
}

// ---------------------------------------------------------------------------
// Errors
// ---------------------------------------------------------------------------
/// Why a request cannot be answered.
#[derive(Debug, PartialEq, Eq)]
pub enum McpError {
    MethodNotFound(String),
    InvalidParams(String),
    ToolNotFound(String),
    Serialization(String),
    Runtime(String),
}

/// What an error is.
pub enum McpErrorV {
    MethodNotFound(Seq<char>),
    InvalidParams(Seq<char>),
    ToolNotFound(Seq<char>),
    Serialization(Seq<char>),
    Runtime(Seq<char>),
}

impl View for McpError {
    type V = McpErrorV;

    open spec fn view(&self) -> McpErrorV {
        match self {
            McpError::MethodNotFound(s) => McpErrorV::MethodNotFound(s@),
            McpError::InvalidParams(s) => McpErrorV::InvalidParams(s@),
            McpError::ToolNotFound(s) => McpErrorV::ToolNotFound(s@),
            McpError::Serialization(s) => McpErrorV::Serialization(s@),
            McpError::Runtime(s) => McpErrorV::Runtime(s@),
        }
    }
}

impl McpErrorV {
    /// The response to a request that cannot be answered.
    pub open spec fn response(self, id: Option<JsonV>) -> ResponseV {
        match self {
            McpErrorV::MethodNotFound(m) => mcp_jsonrpc::error_response(
                id,
                error_codes::METHOD_NOT_FOUND,
                m,
            ),
            McpErrorV::InvalidParams(m) => mcp_jsonrpc::error_response(
                id,
                error_codes::INVALID_PARAMS,
                m,
            ),
            McpErrorV::ToolNotFound(m) => mcp_jsonrpc::error_response(
                id,
                error_codes::TOOL_NOT_FOUND,
                "Tool not found: "@ + m,
            ),
            McpErrorV::Serialization(m) => mcp_jsonrpc::error_response(
                id,
                error_codes::INTERNAL_ERROR,
                "Serialization error: "@ + m,
            ),
            McpErrorV::Runtime(m) => mcp_jsonrpc::error_response(
                id,
                error_codes::INTERNAL_ERROR,
                m,
            ),
        }
    }
}

impl McpError {
    /// The response to a request that cannot be answered.
    pub fn to_response(&self, id: Option<Json>) -> (r: JsonRpcResponse)
        ensures
            r@ == self@.response(mcp_jsonrpc::opt_json(id)),
    {
        match self {
            McpError::MethodNotFound(m) => JsonRpcResponse::error(
                id,
                error_codes::METHOD_NOT_FOUND,
                m.as_str(),
            ),
            McpError::InvalidParams(m) => JsonRpcResponse::error(
                id,
                error_codes::INVALID_PARAMS,
                m.as_str(),
            ),
            McpError::ToolNotFound(m) => {
                let t: String = concat2("Tool not found: ", m.as_str());
                JsonRpcResponse::error(id, error_codes::TOOL_NOT_FOUND, t.as_str())
            },
            McpError::Serialization(m) => {
                let t: String = concat2("Serialization error: ", m.as_str());
                JsonRpcResponse::error(id, error_codes::INTERNAL_ERROR, t.as_str())
            },
            McpError::Runtime(m) => JsonRpcResponse::error(
                id,
                error_codes::INTERNAL_ERROR,
                m.as_str(),
            ),
        }
    }
}

/// What is said of a value that is not what it should be.
pub const BAD_MEMBER: &'static str = "a member is missing or has the wrong type";

/// What an outcome is.
pub open spec fn outcome_view(r: Result<String, McpError>) -> Result<Seq<char>, McpErrorV> {
    match r {
        Ok(s) => Ok(s@),
        Err(e) => Err(e@),
    }
}

/// What an answer is.
pub open spec fn reply_view(r: Result<JsonRpcResponse, McpError>) -> Result<ResponseV, McpErrorV> {
    match r {
        Ok(s) => Ok(s@),
        Err(e) => Err(e@),
    }
}

// ---------------------------------------------------------------------------
// Tools
// ---------------------------------------------------------------------------
/// The parameters do not fit.
pub open spec fn bad_params<T>(m: Seq<char>) -> Result<T, McpErrorV> {
    Err(McpErrorV::InvalidParams(m))
}

/// The process that arguments name: a text that is a number.
pub open spec fn pid_argument(args: JsonV) -> Option<u64> {
    match args.get_text("pid"@) {
        Some(s) => match text::number(s) {
            Ok(n) => Some(n),
            Err(_) => None,
        },
        None => None,
    }
}

/// The reason that arguments give for ending a process.
pub open spec fn reason_argument(args: JsonV) -> ReasonV {
    let s = match args.get_text("reason"@) {
        Some(s) => s,
        None => "cancelled"@,
    };
    if s == "normal"@ {
        ReasonV::Normal
    } else if s == "shutdown"@ {
        ReasonV::Shutdown
    } else {
        ReasonV::Custom(s)
    }
}

/// The counters that the server shows.
pub open spec fn shown_metrics<B: AgentBehavior>(h: HandleV<B>, now: u128) -> GetMetricsResult {
    GetMetricsResult {
        uptime_secs: observability::secs_since(h.metrics.started_at, now),
        active_processes: h.sched.reg.procs.dom().len() as usize,
        messages_sent_total: h.metrics.messages_sent_total,
        messages_processed_total: h.metrics.messages_processed_total,
    }
}

/// The answer where a message could not be sent.
pub open spec fn not_sent(pid: u64) -> Seq<char> {
    "{\"success\": false, \"error\": \""@ + scheduler::not_found_text(AgentPid(pid)) + "\"}"@
}

/// Sending a message: the process and the message have to be named; the message is sent, and
/// the outcome says whether there was such a process.
pub open spec fn sends<B: AgentBehavior>(
    s0: ServerV<B>,
    args: Option<JsonV>,
    s1: ServerV<B>,
    r: Result<Seq<char>, McpErrorV>,
) -> bool {
    match args {
        None => s1 == s0 && r == bad_params::<Seq<char>>("Missing arguments"@),
        Some(a) => match pid_argument(a) {
            None => s1 == s0 && r == bad_params::<Seq<char>>(
                "Missing or invalid 'pid' parameter"@,
            ),
            Some(pid) => match a.get("message"@) {
                None => s1 == s0 && r == bad_params::<Seq<char>>("Missing 'message' parameter"@),
                Some(v) => exists|m: Message|
                    #![trigger m.view()]
                    m@ == MessageV::Json(v) && s1 == (ServerV {
                        runtime: HandleV {
                            sched: scheduler::sent(s0.runtime.sched, AgentPid(pid), m),
                            ..s0.runtime
                        },
                        ..s0
                    }) && r == Ok::<Seq<char>, McpErrorV>(
                        if s0.runtime.sched.reg.procs.dom().contains(pid) {
                            json::record_text(mcp_types::success_json(true))
                        } else {
                            not_sent(pid)
                        },
                    ),
            },
        },
    }
}

/// Ending a process: it has to be named, and it is ended for the reason that is given.
pub open spec fn cancels<B: AgentBehavior>(
    s0: ServerV<B>,
    args: Option<JsonV>,
    s1: ServerV<B>,
    r: Result<Seq<char>, McpErrorV>,
) -> bool {
    match args {
        None => s1 == s0 && r == bad_params::<Seq<char>>("Missing arguments"@),
        Some(a) => match pid_argument(a) {
            None => s1 == s0 && r == bad_params::<Seq<char>>(
                "Missing or invalid 'pid' parameter"@,
            ),
            Some(pid) => exists|reason: Reason|
                #![trigger reason.view()]
                reason@ == reason_argument(a) && s1 == (ServerV {
                    runtime: HandleV {
                        sched: scheduler::ended(s0.runtime.sched, AgentPid(pid), reason),
                        ..s0.runtime
                    },
                    ..s0
                }) && scheduler::told(s0.runtime.sched, AgentPid(pid), reason) && r == Ok::<
                    Seq<char>,
                    McpErrorV,
                >(json::record_text(mcp_types::success_json(true))),
        },
    }
}

/// The call of a tool: what becomes of the server, and what the tool gives.
pub open spec fn tool_runs<B: AgentBehavior>(
    s0: ServerV<B>,
    name: Seq<char>,
    args: Option<JsonV>,
    now: u128,
    s1: ServerV<B>,
    r: Result<Seq<char>, McpErrorV>,
) -> bool {
    if name == "spawn_orchestration"@ {
        match args {
            None => s1 == s0 && r == bad_params::<Seq<char>>("Missing arguments"@),
            Some(a) => if a.get_text("goal"@) is None {
                s1 == s0 && r == bad_params::<Seq<char>>("Missing 'goal' parameter"@)
            } else {
                s1 == (ServerV { next_uuid: next_id(s0.next_uuid), ..s0 }) && r == Ok::<
                    Seq<char>,
                    McpErrorV,
                >(
                    json::record_text(
                        mcp_types::orchestration_json(
                            "orch-"@ + uuid_text(s0.next_uuid),
                            "pending"@,
                            None,
                        ),
                    ),
                )
            },
        }
    } else if name == "get_orchestration_status"@ {
        s1 == s0 && r == match args {
            None => bad_params("Missing arguments"@),
            Some(a) => match a.get_text("orchestration_id"@) {
                None => bad_params("Missing 'orchestration_id' parameter"@),
                Some(id) => Ok(
                    json::record_text(mcp_types::orchestration_json(id, "unknown"@, None)),
                ),
            },
        }
    } else if name == "list_processes"@ {
        s1 == s0 && exists|infos: Seq<ProcessInfoV>| #[trigger]
            lists(infos, s0.runtime.sched) && r == Ok::<Seq<char>, McpErrorV>(
                mcp_types::processes_text(infos),
            )
    } else if name == "send_message"@ {
        sends(s0, args, s1, r)
    } else if name == "get_metrics"@ {
        s1 == s0 && r == Ok::<Seq<char>, McpErrorV>(
            json::record_text(mcp_types::metrics_json(shown_metrics(s0.runtime, now))),
        )
    } else if name == "cancel_process"@ {
        cancels(s0, args, s1, r)
    } else {
        s1 == s0 && r == Err::<Seq<char>, McpErrorV>(McpErrorV::ToolNotFound(name))
    }
}

// ---------------------------------------------------------------------------
// Requests
// ---------------------------------------------------------------------------
/// The first request: what becomes of the server, and its response.
pub open spec fn initialized<B: AgentBehavior>(
    s: ServerV<B>,
    q: RequestV,
    sid: Option<Seq<char>>,
    now: u128,
) -> (ServerV<B>, ResponseV) {
    match q.params {
        None => (
            s,
            mcp_jsonrpc::error_response(
                q.id,
                error_codes::INVALID_PARAMS,
                "Missing initialize params"@,
            ),
        ),
        Some(v) => match mcp_types::initialize_in(v) {
            None => (
                s,
                mcp_jsonrpc::error_response(
                    q.id,
                    error_codes::INVALID_PARAMS,
                    "Invalid initialize params: "@ + BAD_MEMBER@,
                ),
            ),
            Some(p) => if p.protocol_version != SUPPORTED_PROTOCOL_VERSION@ {
                (
                    s,
                    mcp_jsonrpc::error_response(
                        q.id,
                        error_codes::INVALID_PARAMS,
                        "Unsupported protocol version: "@ + p.protocol_version + ". Supported: "@
                            + SUPPORTED_PROTOCOL_VERSION@,
                    ),
                )
            } else {
                let id = match sid {
                    Some(id) => id,
                    None => uuid_text(s.next_uuid),
                };
                (
                    ServerV {
                        sessions: s.sessions.insert(
                            id,
                            SessionV { initialized: true, ..new_session(id, now) },
                        ),
                        next_uuid: if sid is Some {
                            s.next_uuid
                        } else {
                            next_id(s.next_uuid)
                        },
                        ..s
                    },
                    mcp_jsonrpc::success_response(
                        q.id,
                        mcp_types::welcome(
                            SUPPORTED_PROTOCOL_VERSION@,
                            ServerCapabilities {
                                tools: Some(ToolsCapability { list_changed: Some(false) }),
                            },
                            mcp_types::this_software(),
                        ),
                    ),
                )
            },
        },
    }
}

/// The list of tools, as a response.
pub open spec fn tools_listed(q: RequestV) -> Result<ResponseV, McpErrorV> {
    match q.params {
        Some(v) => if mcp_types::is_list_params(v) {
            Ok(
                mcp_jsonrpc::success_response(
                    q.id,
                    mcp_types::tools_list_json(listed_tools(), None),
                ),
            )
        } else {
            Err(McpErrorV::Serialization(BAD_MEMBER@))
        },
        None => Ok(
            mcp_jsonrpc::success_response(q.id, mcp_types::tools_list_json(listed_tools(), None)),
        ),
    }
}

/// What a tool gives, as a response.
pub open spec fn tool_response(id: Option<JsonV>, text: Seq<char>) -> ResponseV {
    mcp_jsonrpc::success_response(
        id,
        JsonV::Object(
            seq![
                ("content"@, JsonV::Array(seq![mcp_types::text_content(text)])),
                ("is_error"@, JsonV::Bool(false)),
            ],
        ),
    )
}

/// The request for a call of a tool.
pub open spec fn calls<B: AgentBehavior>(
    s0: ServerV<B>,
    q: RequestV,
    now: u128,
    s1: ServerV<B>,
    r: Result<ResponseV, McpErrorV>,
) -> bool {
    match q.params {
        None => s1 == s0 && r == bad_params::<ResponseV>("Missing tools/call params"@),
        Some(v) => match mcp_types::call_in(v) {
            None => s1 == s0 && r == Err::<ResponseV, McpErrorV>(
                McpErrorV::Serialization(BAD_MEMBER@),
            ),
            Some(c) => exists|out: Result<Seq<char>, McpErrorV>| #[trigger]
                tool_runs(s0, c.0, c.1, now, s1, out) && r == match out {
                    Ok(t) => Ok(tool_response(q.id, t)),
                    Err(e) => Err(e),
                },
        },
    }
}

/// A request within a session: what becomes of the server, and the answer.
pub open spec fn dispatched<B: AgentBehavior>(
    s0: ServerV<B>,
    q: RequestV,
    now: u128,
    s1: ServerV<B>,
    r: Result<ResponseV, McpErrorV>,
) -> bool {
    if q.method == "tools/list"@ {
        s1 == s0 && r == tools_listed(q)
    } else if q.method == "tools/call"@ {
        calls(s0, q, now, s1, r)
    } else if q.method == "ping"@ {
        s1 == s0 && r == Ok::<ResponseV, McpErrorV>(
            mcp_jsonrpc::success_response(q.id, JsonV::Object(Seq::empty())),
        )
    } else {
        s1 == s0 && r == Err::<ResponseV, McpErrorV>(McpErrorV::MethodNotFound(q.method))
    }
}

/// The response to a request without an initialized session.
pub open spec fn no_session(id: Option<JsonV>) -> ResponseV {
    mcp_jsonrpc::error_response(
        id,
        error_codes::SESSION_NOT_INITIALIZED,
        "Session not initialized. Call initialize first."@,
    )
}

/// A request: what becomes of the server, and its response. The first request needs no
/// session; all others need one that is alive and initialized, which is then used.
pub open spec fn answered<B: AgentBehavior>(
    s0: ServerV<B>,
    q: RequestV,
    sid: Option<Seq<char>>,
    now: u128,
    s1: ServerV<B>,
    r: ResponseV,
) -> bool {
    if q.method == "initialize"@ {
        (s1, r) == initialized(s0, q, sid, now)
    } else {
        match sid {
            None => s1 == s0 && r == no_session(q.id),
            Some(id) => {
                let live = alive(s0.sessions, s0.session_timeout, now);
                let t0 = ServerV { sessions: live, ..s0 };
                if !live.dom().contains(id) {
                    s1 == t0 && r == mcp_jsonrpc::error_response(
                        q.id,
                        error_codes::SESSION_EXPIRED,
                        "Session not found or expired"@,
                    )
                } else if !live[id].initialized {
                    s1 == t0 && r == no_session(q.id)
                } else {
                    exists|t1: ServerV<B>, a: Result<ResponseV, McpErrorV>| #[trigger]
                        dispatched(t0, q, now, t1, a) && s1 == (ServerV {
                            sessions: t1.sessions.insert(
                                id,
                                SessionV { last_active: now, ..live[id] },
                            ),
                            ..t1
                        }) && r == match a {
                            Ok(x) => x,
                            Err(e) => e.response(q.id),
                        }
                }
            },
        }
    }
}

/// What an optional text is.
pub open spec fn opt_text(o: Option<&str>) -> Option<Seq<char>> {
    match o {
        Some(s) => Some(s@),
        None => None,
    }
}

fn missing<T>(m: &str) -> (r: Result<T, McpError>)
    ensures
        r matches Err(e) && e@ == McpErrorV::InvalidParams(m@),
{
    Err(McpError::InvalidParams(m.to_owned()))
}

fn pid_in(args: &Json) -> (r: Option<u64>)
    ensures
        r == pid_argument(args@),
{
    match args.get_str("pid") {
        Some(s) => match parse_u64(s.as_str()) {
            Ok(n) => Some(n),
            Err(_) => None,
        },
        None => None,
    }
}

fn reason_in(args: &Json) -> (r: Reason)
    ensures
        r@ == reason_argument(args@),
{
    let s: String = match args.get_str("reason") {
        Some(s) => s.clone(),
        None => "cancelled".to_owned(),
    };
    if str_eq(s.as_str(), "normal") {
        Reason::Normal
    } else if str_eq(s.as_str(), "shutdown") {
        Reason::Shutdown
    } else {
        Reason::Custom(s)
    }
}

/// Answers requests.
pub struct McpProtocolHandler<B: AgentBehavior> {
    pub state: McpServerState<B>,
}

impl<B: AgentBehavior> McpProtocolHandler<B> {
    /// A handler of a server's requests.
    pub fn new(state: McpServerState<B>) -> (r: Self)
        ensures
            r.state == state,
    {
        McpProtocolHandler { state }
    }

    /// Answers a request that came at `now` within the session `session_id`, if any.
    pub fn handle_request(
        &mut self,
        request: JsonRpcRequest,
        session_id: Option<&str>,
        now: u128,
    ) -> (r: JsonRpcResponse)
        requires
            old(self).state.wf(),
        ensures
            final(self).state.wf(),
            answered(
                old(self).state@,
                request@,
                opt_text(session_id),
                now,
                final(self).state@,
                r@,
            ),
    {
        if str_eq(request.method.as_str(), "initialize") {
            return self.handle_initialize(request, session_id, now);
        }
        let id: &str = match session_id {
            Some(id) => id,
            None => {
                return JsonRpcResponse::error(
                    request.id,
                    error_codes::SESSION_NOT_INITIALIZED,
                    "Session not initialized. Call initialize first.",
                );
            },
        };
        let session: McpSession = match self.state.get_session(id, now) {
            Some(s) => s,
            None => {
                return JsonRpcResponse::error(
                    request.id,
                    error_codes::SESSION_EXPIRED,
                    "Session not found or expired",
                );
            },
        };
        if !session.initialized {
            return JsonRpcResponse::error(
                request.id,
                error_codes::SESSION_NOT_INITIALIZED,
                "Session not initialized. Call initialize first.",
            );
        }
        let ghost t0 = self.state@;
        let reply: Result<JsonRpcResponse, McpError> = self.dispatch(&request, now);
        let ghost t1 = self.state@;
        assert(dispatched(t0, request@, now, t1, reply_view(reply)));
        self.state.update_session(session, now);
        match reply {
            Ok(x) => x,
            Err(e) => e.to_response(request.id),
        }
    }

    /// Answers a request within a session.
    fn dispatch(&mut self, request: &JsonRpcRequest, now: u128) -> (r: Result<
        JsonRpcResponse,
        McpError,
    >)
        requires
            old(self).state.wf(),
        ensures
            final(self).state.wf(),
            dispatched(old(self).state@, request@, now, final(self).state@, reply_view(r)),
    {
        if str_eq(request.method.as_str(), "tools/list") {
            self.handle_tools_list(request)
        } else if str_eq(request.method.as_str(), "tools/call") {
            self.handle_tools_call(request, now)
        } else if str_eq(request.method.as_str(), "ping") {
            self.handle_ping(request)
        } else {
            Err(McpError::MethodNotFound(request.method.clone()))
        }
    }

    /// Answers the first request of a client.
    fn handle_initialize(
        &mut self,
        request: JsonRpcRequest,
        session_id: Option<&str>,
        now: u128,
    ) -> (r: JsonRpcResponse)
        requires
            old(self).state.wf(),
        ensures
            final(self).state.wf(),
            (final(self).state@, r@) == initialized(
                old(self).state@,
                request@,
                opt_text(session_id),
                now,
            ),
    {
        let ghost s0 = self.state@;
        let params: InitializeParams = match &request.params {
            Some(p) => match InitializeParams::from_json(p) {
                Some(p) => p,
                None => {
                    let m: String = concat2("Invalid initialize params: ", BAD_MEMBER);
                    return JsonRpcResponse::error(
                        request.id,
                        error_codes::INVALID_PARAMS,
                        m.as_str(),
                    );
                },
            },
            None => {
                return JsonRpcResponse::error(
                    request.id,
                    error_codes::INVALID_PARAMS,
                    "Missing initialize params",
                );
            },
        };
        if !str_eq(params.protocol_version.as_str(), SUPPORTED_PROTOCOL_VERSION) {
            let mut m: String = concat3(
                "Unsupported protocol version: ",
                params.protocol_version.as_str(),
                ". Supported: ",
            );
            m.append(SUPPORTED_PROTOCOL_VERSION);
            return JsonRpcResponse::error(request.id, error_codes::INVALID_PARAMS, m.as_str());
        }
        let id: String = match session_id {
            Some(id) => id.to_owned(),
            None => self.state.create_session(now),
        };
        let mut session: McpSession = McpSession::new(id.as_str(), now);
        session.mark_initialized();
        self.state.update_session(session, now);
        assert(self.state@.sessions =~= s0.sessions.insert(
            id@,
            SessionV { initialized: true, ..new_session(id@, now) },
        ));
        let result = InitializeResult {
            protocol_version: SUPPORTED_PROTOCOL_VERSION.to_owned(),
            capabilities: ServerCapabilities::default(),
            server_info: Implementation::zeptoclaw(),
        };
        JsonRpcResponse::success(request.id, result.to_json())
    }

    /// Answers a request for the list of tools.
    fn handle_tools_list(&self, request: &JsonRpcRequest) -> (r: Result<JsonRpcResponse, McpError>)
        ensures
            reply_view(r) == tools_listed(request@),
    {
        if let Some(p) = &request.params {
            match ToolsListParams::from_json(p) {
                Some(_) => {},
                None => {
                    return Err(McpError::Serialization(BAD_MEMBER.to_owned()));
                },
            }
        }
        let tools: Vec<ToolInfo> = self.state.get_available_tools();
        let result = ToolsListResult { tools, next_cursor: None };
        Ok(JsonRpcResponse::success(dup_opt(&request.id), result.to_json()))
    }

    /// Answers a request for a call of a tool.
    fn handle_tools_call(&mut self, request: &JsonRpcRequest, now: u128) -> (r: Result<
        JsonRpcResponse,
        McpError,
    >)
        requires
            old(self).state.wf(),
        ensures
            final(self).state.wf(),
            calls(old(self).state@, request@, now, final(self).state@, reply_view(r)),
    {
        let params: ToolsCallParams = match &request.params {
            Some(p) => match ToolsCallParams::from_json(p) {
                Some(p) => p,
                None => {
                    return Err(McpError::Serialization(BAD_MEMBER.to_owned()));
                },
            },
            None => {
                return missing("Missing tools/call params");
            },
        };
        let name: &str = params.name.as_str();
        let out: Result<String, McpError> = if str_eq(name, "spawn_orchestration") {
            self.handle_spawn_orchestration(&params.arguments)
        } else if str_eq(name, "get_orchestration_status") {
            self.handle_get_orchestration_status(&params.arguments)
        } else if str_eq(name, "list_processes") {
            self.handle_list_processes()
        } else if str_eq(name, "send_message") {
            self.handle_send_message(&params.arguments)
        } else if str_eq(name, "get_metrics") {
            self.handle_get_metrics(now)
        } else if str_eq(name, "cancel_process") {
            self.handle_cancel_process(&params.arguments)
        } else {
            Err(McpError::ToolNotFound(params.name.clone()))
        };
        proof {
            lemma_tool_names();
            assert(tool_runs(
                old(self).state@,
                params.name@,
                mcp_jsonrpc::opt_json(params.arguments),
                now,
                self.state@,
                outcome_view(out),
            ));
        }
        let ghost c = mcp_types::call_in(request@.params->0)->0;
        let ghost o = outcome_view(out);
        assert(tool_runs(old(self).state@, c.0, c.1, now, self.state@, o));
        match out {
            Ok(t) => {
                let mut parts: Vec<ToolContent> = Vec::new();
                parts.push(ToolContent::text(t.as_str()));
                let result = ToolsCallResult { content: Some(parts), is_error: Some(false) };
                let j: Json = result.to_json();
                proof {
                    assert(parts@.map_values(|c: ToolContent| mcp_types::content_json(c)) =~= seq![
                        mcp_types::text_content(t@),
                    ]);
                    assert(j@->Object_0 =~= seq![
                        ("content"@, JsonV::Array(seq![mcp_types::text_content(t@)])),
                        ("is_error"@, JsonV::Bool(false)),
                    ]);
                    assert(o == Ok::<Seq<char>, McpErrorV>(t@));
                }
                let reply = JsonRpcResponse::success(dup_opt(&request.id), j);
                assert(reply@ == tool_response(request@.id, t@));
                Ok(reply)
            },
            Err(e) => Err(e),
        }
    }

    /// Answers a sign of life.
    fn handle_ping(&self, request: &JsonRpcRequest) -> (r: Result<JsonRpcResponse, McpError>)
        ensures
            reply_view(r) == Ok::<ResponseV, McpErrorV>(
                mcp_jsonrpc::success_response(request@.id, JsonV::Object(Seq::empty())),
            ),
    {
        let o = ObjectBuilder::new();
        Ok(JsonRpcResponse::success(dup_opt(&request.id), o.build()))
    }

    /// Asks for an orchestration. It gets a name, and waits.
    fn handle_spawn_orchestration(&mut self, args: &Option<Json>) -> (r: Result<String, McpError>)
        requires
            old(self).state.wf(),
        ensures
            final(self).state.wf(),
            tool_runs(
                old(self).state@,
                "spawn_orchestration"@,
                mcp_jsonrpc::opt_json(*args),
                0,
                final(self).state@,
                outcome_view(r),
            ),
    {
        let args: &Json = match args {
            Some(a) => a,
            None => {
                return missing("Missing arguments");
            },
        };
        match args.get_str("goal") {
            Some(_) => {},
            None => {
                return missing("Missing 'goal' parameter");
            },
        }
        let uuid: String = generate_uuid(&mut self.state.uuids);
        let result = SpawnOrchestrationResult {
            orchestration_id: concat2("orch-", uuid.as_str()),
            status: "pending".to_owned(),
        };
        Ok(result.to_json().to_record())
    }

    /// Where an orchestration stands.
    fn handle_get_orchestration_status(&self, args: &Option<Json>) -> (r: Result<String, McpError>)
        ensures
            tool_runs(
                self.state@,
                "get_orchestration_status"@,
                mcp_jsonrpc::opt_json(*args),
                0,
                self.state@,
                outcome_view(r),
            ),
    {
        proof {
            lemma_tool_names();
        }
        let args: &Json = match args {
            Some(a) => a,
            None => {
                return missing("Missing arguments");
            },
        };
        let id: String = match args.get_str("orchestration_id") {
            Some(s) => s.clone(),
            None => {
                return missing("Missing 'orchestration_id' parameter");
            },
        };
        let result = OrchestrationStatusResult {
            orchestration_id: id,
            status: "unknown".to_owned(),
            results: None,
        };
        Ok(result.to_json().to_record())
    }

    /// The processes that there are.
    fn handle_list_processes(&self) -> (r: Result<String, McpError>)
        requires
            self.state.wf(),
        ensures
            exists|infos: Seq<ProcessInfoV>| #[trigger]
                lists(infos, self.state@.runtime.sched) && outcome_view(r) == Ok::<
                    Seq<char>,
                    McpErrorV,
                >(mcp_types::processes_text(infos)),
    {
        let processes: Vec<ProcessInfo> = self.state.runtime_handle.list_processes();
        assert(lists(mcp_types::processes_view(processes@), self.state@.runtime.sched));
        let result = ListProcessesResult { processes };
        Ok(result.to_text())
    }

    /// Sends a message to a process.
    fn handle_send_message(&mut self, args: &Option<Json>) -> (r: Result<String, McpError>)
        requires
            old(self).state.wf(),
        ensures
            final(self).state.wf(),
            sends(
                old(self).state@,
                mcp_jsonrpc::opt_json(*args),
                final(self).state@,
                outcome_view(r),
            ),
    {
        let args: &Json = match args {
            Some(a) => a,
            None => {
                return missing("Missing arguments");
            },
        };
        let pid: u64 = match pid_in(args) {
            Some(p) => p,
            None => {
                return missing("Missing or invalid 'pid' parameter");
            },
        };
        let data: Json = match args.get("message") {
            Some(v) => v.dup(),
            None => {
                return missing("Missing 'message' parameter");
            },
        };
        let message: Message = Message::Json(data);
        let ghost m = message;
        assert(m@ == MessageV::Json(data@));
        match self.state.runtime_handle.send_message(pid, message) {
            Ok(()) => {
                let result = SendMessageResult { success: true };
                Ok(result.to_json().to_record())
            },
            Err(e) => {
                Ok(concat3("{\"success\": false, \"error\": \"", e.as_str(), "\"}"))
            },
        }
    }

    /// What the counters show.
    fn handle_get_metrics(&self, now: u128) -> (r: Result<String, McpError>)
        requires
            self.state.wf(),
        ensures
            outcome_view(r) == Ok::<Seq<char>, McpErrorV>(
                json::record_text(mcp_types::metrics_json(shown_metrics(self.state@.runtime, now))),
            ),
    {
        let snapshot: RuntimeMetricsSnapshot = self.state.runtime_handle.metrics_snapshot(now);
        let n: usize = self.state.runtime_handle.process_count();
        let result = GetMetricsResult {
            uptime_secs: snapshot.uptime_secs,
            active_processes: n,
            messages_sent_total: snapshot.messages_sent_total,
            messages_processed_total: snapshot.messages_processed_total,
        };
        Ok(result.to_json().to_record())
    }

    /// Ends a process.
    fn handle_cancel_process(&mut self, args: &Option<Json>) -> (r: Result<String, McpError>)
        requires
            old(self).state.wf(),
        ensures
            final(self).state.wf(),
            cancels(
                old(self).state@,
                mcp_jsonrpc::opt_json(*args),
                final(self).state@,
                outcome_view(r),
            ),
    {
        let args: &Json = match args {
            Some(a) => a,
            None => {
                return missing("Missing arguments");
            },
        };
        let pid: u64 = match pid_in(args) {
            Some(p) => p,
            None => {
                return missing("Missing or invalid 'pid' parameter");
            },
        };
        let reason: Reason = reason_in(args);
        assert(reason@ == reason_argument(args@));
        self.state.runtime_handle.terminate_process(pid, reason);
        let result = CancelProcessResult { success: true };
        Ok(result.to_json().to_record())
    }
}

proof fn lemma_tool_names()
    ensures
        "spawn_orchestration"@ != "get_orchestration_status"@,
{
    reveal_strlit("spawn_orchestration");
    reveal_strlit("get_orchestration_status");
    assert("spawn_orchestration"@.len() == 19);
    assert("get_orchestration_status"@.len() == 24);
}

// ---------------------------------------------------------------------------
// What holds of every server
// ---------------------------------------------------------------------------
/// Without a session, every request but the first is refused, and nothing changes.
pub proof fn law_session_required<B: AgentBehavior>(
    s0: ServerV<B>,
    q: RequestV,
    now: u128,
    s1: ServerV<B>,
    r: ResponseV,
)
    requires
        answered(s0, q, None, now, s1, r),
        q.method != "initialize"@,
    ensures
        s1 == s0,
        r.result is None,
        r.error matches Some(e) && e.code == error_codes::SESSION_NOT_INITIALIZED,
{
}

/// A session that is used stays what it is, its last use does not go back as long as time does not,
/// and it does not expire until more than the given time has passed since.
pub proof fn law_touched_stays_alive(s: SessionV, now: u128, timeout: u128, later: u128)
    requires
        s.last_active <= now <= later,
    ensures
        touched(s, now).last_active == now,
        touched(s, now).last_active >= s.last_active,
        touched(s, now).id == s.id,
        touched(s, now).created_at == s.created_at,
        touched(s, now).initialized == s.initialized,
        expired(touched(s, now), timeout, later) <==> later - now > timeout,
{
}

/// A session that has expired is gone: a request within it is refused.
pub proof fn law_expired_refused<B: AgentBehavior>(
    s0: ServerV<B>,
    q: RequestV,
    id: Seq<char>,
    now: u128,
    s1: ServerV<B>,
    r: ResponseV,
)
    requires
        answered(s0, q, Some(id), now, s1, r),
        q.method != "initialize"@,
        s0.sessions.dom().contains(id) ==> expired(s0.sessions[id], s0.session_timeout, now),
    ensures
        !s1.sessions.dom().contains(id),
        r.error matches Some(e) && e.code == error_codes::SESSION_EXPIRED,
{
}

/// After the first request, a sign of life within the session is answered, as long as the
/// session has not expired.
pub proof fn law_initialized_session_lives<B: AgentBehavior>(
    s0: ServerV<B>,
    q: RequestV,
    id: Seq<char>,
    now: u128,
    ping: RequestV,
    later: u128,
    s2: ServerV<B>,
    r: ResponseV,
)
    requires
        initialized(s0, q, Some(id), now).1.error is None,
        answered(initialized(s0, q, Some(id), now).0, ping, Some(id), later, s2, r),
        ping.method == "ping"@,
        rate_limiter::since(later, now) <= s0.session_timeout,
    ensures
        r == mcp_jsonrpc::success_response(ping.id, JsonV::Object(Seq::empty())),
        s2.sessions.dom().contains(id) && s2.sessions[id].last_active == later,
{
    reveal_strlit("ping");
    reveal_strlit("initialize");
    reveal_strlit("tools/list");
    reveal_strlit("tools/call");
    assert("ping"@.len() == 4 && "initialize"@.len() == 10);
    assert("tools/list"@.len() == 10 && "tools/call"@.len() == 10);
    let s1 = initialized(s0, q, Some(id), now).0;
    let live = alive(s1.sessions, s1.session_timeout, later);
    assert(live.dom().contains(id));
}

/// A response has the id of its request, and it is either a result or an error.
pub proof fn law_response_of_request<B: AgentBehavior>(
    s0: ServerV<B>,
    q: RequestV,
    sid: Option<Seq<char>>,
    now: u128,
    s1: ServerV<B>,
    r: ResponseV,
)
    requires
        answered(s0, q, sid, now, s1, r),
    ensures
        r.id == q.id,
        r.result is Some <==> r.error is None,
{
}

proof fn lemma_names_of_tools()
    ensures
        "spawn_orchestration"@.len() == 19,
        "get_orchestration_status"@.len() == 24,
        "list_processes"@.len() == 14,
        "list_processes"@[0] == 'l',
        "send_message"@.len() == 12,
        "get_metrics"@.len() == 11,
        "cancel_process"@.len() == 14,
        "cancel_process"@[0] == 'c',
{
    reveal_strlit("spawn_orchestration");
    reveal_strlit("get_orchestration_status");
    reveal_strlit("list_processes");
    reveal_strlit("send_message");
    reveal_strlit("get_metrics");
    reveal_strlit("cancel_process");
}

/// A message that a client sends arrives: it is the last one in the mailbox of the process that the
/// client names, and every other mailbox is as it was.
pub proof fn law_client_message_arrives<B: AgentBehavior>(
    s0: ServerV<B>,
    args: JsonV,
    pid: u64,
    message: JsonV,
    now: u128,
    s1: ServerV<B>,
    r: Result<Seq<char>, McpErrorV>,
)
    requires
        tool_runs(s0, "send_message"@, Some(args), now, s1, r),
        args.get_text("pid"@) == Some(text::decimal(pid as nat)),
        args.get("message"@) == Some(message),
        s0.runtime.sched.reg.procs.dom().contains(pid),
    ensures
        r is Ok,
        s1.sessions == s0.sessions,
        ({
            let before = s0.runtime.sched.reg.procs;
            let after = s1.runtime.sched.reg.procs;
            &&& after.dom() == before.dom()
            &&& after[pid].mailbox.len() == before[pid].mailbox.len() + 1
            &&& after[pid].mailbox.drop_last() == before[pid].mailbox
            &&& after[pid].mailbox.last()@ == MessageV::Json(message)
            &&& forall|k: u64| #[trigger]
                before.dom().contains(k) && k != pid ==> after[k] == before[k]
        }),
{
    lemma_names_of_tools();
    text::law_numeral_reads_back(pid);
    assert(sends(s0, Some(args), s1, r));
    let m = choose|m: Message|
        #![trigger m.view()]
        m@ == MessageV::Json(message) && s1.runtime.sched == scheduler::sent(
            s0.runtime.sched,
            AgentPid(pid),
            m,
        );
    scheduler::law_sent_arrives(s0.runtime.sched, AgentPid(pid), m);
    let q = s0.runtime.sched.reg.procs[pid].mailbox;
    assert(q.push(m).drop_last() =~= q);
}

/// A process that a client cancels is gone, and no other process is.
pub proof fn law_cancelled_is_gone<B: AgentBehavior>(
    s0: ServerV<B>,
    args: JsonV,
    pid: u64,
    now: u128,
    s1: ServerV<B>,
    r: Result<Seq<char>, McpErrorV>,
)
    requires
        tool_runs(s0, "cancel_process"@, Some(args), now, s1, r),
        args.get_text("pid"@) == Some(text::decimal(pid as nat)),
    ensures
        r is Ok,
        s1.sessions == s0.sessions,
        s1.runtime.sched.reg.procs.dom() =~= s0.runtime.sched.reg.procs.dom().remove(pid),
{
    lemma_names_of_tools();
    text::law_numeral_reads_back(pid);
    assert(cancels(s0, Some(args), s1, r));
    let reason = choose|reason: Reason|
        #![trigger reason.view()]
        reason@ == reason_argument(args) && s1.runtime.sched == scheduler::ended(
            s0.runtime.sched,
            AgentPid(pid),
            reason,
        );
    scheduler::law_others_stay(s0.runtime.sched, AgentPid(pid), reason);
}

/// The reason of a client is the reason for which a process ends; where there is none, it was
/// cancelled.
pub proof fn law_reason_is_the_clients(args: JsonV)
    ensures
        args.get_text("reason"@) == Some("normal"@) ==> reason_argument(args) == ReasonV::Normal,
        args.get_text("reason"@) == Some("shutdown"@) ==> reason_argument(args)
            == ReasonV::Shutdown,
        args.get_text("reason"@) matches Some(s) ==> (s != "normal"@ && s != "shutdown"@
            ==> reason_argument(args) == ReasonV::Custom(s)),
        args.get_text("reason"@) is None ==> reason_argument(args) == ReasonV::Custom(
            "cancelled"@,
        ),
{
    reveal_strlit("normal");
    reveal_strlit("shutdown");
    reveal_strlit("cancelled");
    assert("normal"@.len() == 6 && "shutdown"@.len() == 8 && "cancelled"@.len() == 9);
}

/// A list of processes shows each of them, with its state, its priority and the number of messages
/// that wait for it.
pub proof fn law_each_process_listed<B: AgentBehavior>(
    infos: Seq<ProcessInfoV>,
    s: SchedV<B>,
    k: u64,
)
    requires
        lists(infos, s),
        s.reg.procs.dom().contains(k),
        s.reg.procs[k].pid.0 == k,
    ensures
        exists|i: int|
            0 <= i < infos.len() && (#[trigger] infos[i]).pid == k && infos[i].mailbox_depth
                == s.reg.procs[k].mailbox.len() && (infos[i].status == "Waiting"@
                <==> s.reg.procs[k].status == ProcessStatus::Waiting) && (infos[i].status
                == "Runnable"@ <==> s.reg.procs[k].status == ProcessStatus::Runnable) && (
            infos[i].priority == "High"@ <==> s.reg.procs[k].priority == Priority::High) && (
            infos[i].priority == "Low"@ <==> s.reg.procs[k].priority == Priority::Low),
{
    reveal_strlit("Runnable");
    reveal_strlit("Waiting");
    reveal_strlit("Suspended");
    reveal_strlit("Exiting");
    reveal_strlit("High");
    reveal_strlit("Normal");
    reveal_strlit("Low");
    assert("Runnable"@.len() == 8 && "Suspended"@.len() == 9);
    assert("Waiting"@.len() == 7 && "Exiting"@.len() == 7);
    assert("Waiting"@[0] == 'W' && "Exiting"@[0] == 'E');
    assert("High"@.len() == 4 && "Normal"@.len() == 6 && "Low"@.len() == 3);
    let pids = choose|pids: Seq<AgentPid>| #[trigger]
        scheduler::names_each(pids, s) && pids.len() == infos.len() && forall|i: int|
            0 <= i < infos.len() ==> #[trigger] infos[i] == info_of(s.reg.procs[pids[i].0]);
    assert(pids.contains(AgentPid(k)));
    let i = choose|i: int| 0 <= i < pids.len() && pids[i] == AgentPid(k);
    assert(infos[i] == info_of(s.reg.procs[k]));
}

/// A tool that the server does not have, and a method that it does not know, are refused as such,
/// and nothing changes.
pub proof fn law_unknown_refused<B: AgentBehavior>(
    s0: ServerV<B>,
    q: RequestV,
    name: Seq<char>,
    args: Option<JsonV>,
    now: u128,
    s1: ServerV<B>,
    t: Result<Seq<char>, McpErrorV>,
    a: Result<ResponseV, McpErrorV>,
)
    ensures
        tool_runs(s0, name, args, now, s1, t) && (forall|i: int|
            0 <= i < listed_tools().len() ==> (#[trigger] listed_tools()[i]).name != name) ==> s1
            == s0 && (t matches Err(e) && e.response(q.id).error matches Some(x) && x.code
            == error_codes::TOOL_NOT_FOUND),
        dispatched(s0, q, now, s1, a) && q.method != "tools/list"@ && q.method != "tools/call"@
            && q.method != "ping"@ ==> s1 == s0 && (a matches Err(e) && e.response(
            q.id,
        ).error matches Some(x) && x.code == error_codes::METHOD_NOT_FOUND),
{
    let l = listed_tools();
    assert(l[0].name == "spawn_orchestration"@);
    assert(l[1].name == "get_orchestration_status"@);
    assert(l[2].name == "list_processes"@);
    assert(l[3].name == "send_message"@);
    assert(l[4].name == "get_metrics"@);
    assert(l[5].name == "cancel_process"@);
}

/// The server lists its tools: each tool that it can call is among them.
pub proof fn law_tools_are_listed(q: RequestV)
    requires
        q.params is None,
    ensures
        ({
            let r = tools_listed(q)->Ok_0;
            &&& tools_listed(q) is Ok
            &&& r.id == q.id
            &&& r.result matches Some(v) && v.get("tools"@) matches Some(JsonV::Array(a)) && a.len()
                == 6 && a[0].get_text("name"@) == Some("spawn_orchestration"@)
                && a[1].get_text("name"@) == Some("get_orchestration_status"@)
                && a[2].get_text("name"@) == Some("list_processes"@)
                && a[3].get_text("name"@) == Some("send_message"@)
                && a[4].get_text("name"@) == Some("get_metrics"@)
                && a[5].get_text("name"@) == Some("cancel_process"@)
        }),
{
}

/// What a tool gives is the text of the response.
pub proof fn law_tool_text_is_returned(id: Option<JsonV>, text: Seq<char>)
    ensures
        ({
            let r = tool_response(id, text);
            &&& r.id == id
            &&& r.error is None
            &&& r.result matches Some(v) && v.get("content"@) matches Some(JsonV::Array(a))
                && a.len() == 1 && a[0].get_text("text"@) == Some(text) && a[0].get_text("type"@)
                == Some("text"@) && v.get("is_error"@) == Some(JsonV::Bool(false))
        }),
{
    reveal_strlit("type");
    reveal_strlit("text");
    reveal_strlit("content");
    reveal_strlit("is_error");
    assert("type"@[1] == 'y' && "text"@[1] == 'e');
    assert("content"@.len() == 7 && "is_error"@.len() == 8);
    let c = seq![("type"@, JsonV::Str("text"@)), ("text"@, JsonV::Str(text))];
    json::lemma_member_at(c, 0);
    json::lemma_member_at(c, 1);
    let m = seq![
        ("content"@, JsonV::Array(seq![mcp_types::text_content(text)])),
        ("is_error"@, JsonV::Bool(false)),
    ];
    json::lemma_member_at(m, 0);
    json::lemma_member_at(m, 1);
}

/// A client that speaks the version of the server gets a session, which it may use from then on; one
/// that speaks another version, or does not say which, gets an error and none. No other session
/// changes.
pub proof fn law_first_request_opens_session<B: AgentBehavior>(
    s: ServerV<B>,
    q: RequestV,
    id: Seq<char>,
    now: u128,
)
    ensures
        ({
            let (t, r) = initialized(s, q, Some(id), now);
            let good = q.params matches Some(v) && mcp_types::initialize_in(v) matches Some(p)
                && p.protocol_version == SUPPORTED_PROTOCOL_VERSION@;
            &&& r.error is None <==> good
            &&& good ==> t.sessions.dom() == s.sessions.dom().insert(id)
                && t.sessions[id].initialized && t.sessions[id].id == id
                && t.sessions[id].last_active == now
            &&& !good ==> t == s
            &&& forall|k: Seq<char>| #[trigger]
                s.sessions.dom().contains(k) && k != id ==> t.sessions[k] == s.sessions[k]
            &&& t.runtime == s.runtime
        }),
{
    let t = initialized(s, q, Some(id), now).0;
    assert(t.sessions.dom() =~= s.sessions.dom() || t.sessions.dom() =~= s.sessions.dom().insert(
        id,
    ));
}

} // verus!
