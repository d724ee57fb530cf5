//! The orchestrator, which splits a goal into tasks and hands them to workers, and the worker.
use std::collections::VecDeque;
use vstd::prelude::*;
use crate::json;
use crate::util::text;
use crate::agent_rt::types;
use crate::agent_rt::types::{Action, ActionV, AgentPid, IoOp, IoOpV, IoResult, IoResultV, Message, MessageV, Reason, ReasonV, SystemMsg, SystemMsgV};
use crate::json::{collect_texts, Json, JsonNum, JsonV, NumV, ObjectBuilder};
use crate::util::assoc::AssocMap;
use crate::util::text::{concat2, str_eq, u64_to_text};

verus! {

// ---------------------------------------------------------------------------
// Reading messages
// ---------------------------------------------------------------------------
/// The process id under a member.
pub open spec fn pid_member(v: JsonV, k: Seq<char>) -> Option<AgentPid> {
    match v.get_unsigned(k) {
        Some(n) => Some(AgentPid(n)),
        None => None,
    }
}

/// Reads a process id from a member.
pub fn parse_pid(v: &Json, k: &str) -> (r: Option<AgentPid>)
    ensures
        r == pid_member(v@, k@),
{
    match v.get_u64(k) {
        Some(n) => Some(AgentPid::from_raw(n)),
        None => None,
    }
}

/// The id that a task carries, or the one to fall back on.
pub open spec fn task_id_of(task: JsonV, fallback: Seq<char>) -> Seq<char> {
    match task.get_text("task_id"@) {
        Some(s) => s,
        None => fallback,
    }
}

/// Reads the id of a task.
pub fn extract_task_id(task: &Json, fallback: &str) -> (r: String)
    ensures
        r@ == task_id_of(task@, fallback@),
{
    match task.get_str("task_id") {
        Some(s) => s.clone(),
        None => fallback.to_owned(),
    }
}

/// The one task that stands for a goal that was not split up.
pub open spec fn single_task(goal: JsonV) -> JsonV {
    JsonV::Object(seq![("task_id"@, JsonV::Str("task-0"@)), ("goal"@, goal)])
}

/// The list of tasks in a decomposition: under `tasks`, or under `tasks` of `payload`.
pub open spec fn listed_tasks(v: JsonV) -> Option<JsonV> {
    match v.get("tasks"@) {
        Some(t) => Some(t),
        None => match v.get("payload"@) {
            Some(p) => p.get("tasks"@),
            None => None,
        },
    }
}

/// The tasks that a decomposition gives; a single one where it gives none.
pub open spec fn tasks_from(goal: JsonV, result: IoResultV) -> Seq<JsonV> {
    let found = match result {
        IoResultV::Done(v) => listed_tasks(v),
        _ => None,
    };
    match found {
        Some(t) => match t.items() {
            Some(a) => if a.len() > 0 {
                a
            } else {
                seq![single_task(goal)]
            },
            None => seq![single_task(goal)],
        },
        None => seq![single_task(goal)],
    }
}

/// Copies the values of a list.
fn dup_values(a: &Vec<Json>) -> (r: Vec<Json>)
    ensures
        json::array_view(r@) == json::array_view(a@),
{
    let mut out: Vec<Json> = Vec::new();
    let mut i: usize = 0;
    while i < a.len()
        invariant
            i <= a@.len(),
            out@.len() == i,
            forall|j: int| 0 <= j < i ==> (#[trigger] out@[j])@ == a@[j]@,
        decreases a@.len() - i,
    {
        out.push(a[i].dup());
        i += 1;
    }
    assert(json::array_view(out@) =~= json::array_view(a@));
    out
}

fn make_single_task(goal: &Json) -> (r: Json)
    ensures
        r@ == single_task(goal@),
{
    let mut o = ObjectBuilder::new();
    o.put_str("task_id", "task-0");
    o.put("goal", goal.dup());
    assert(o@ =~= seq![("task_id"@, JsonV::Str("task-0"@)), ("goal"@, goal@)]);
    o.build()
}

/// Reads the tasks of a decomposition.
pub fn extract_tasks(goal: &Json, result: &IoResult) -> (r: Vec<Json>)
    ensures
        json::array_view(r@) == tasks_from(goal@, result@),
{
    let found: Option<&Json> = match result {
        IoResult::Done(v) => match v.get("tasks") {
            Some(t) => Some(t),
            None => match v.get("payload") {
                Some(p) => p.get("tasks"),
                None => None,
            },
        },
        _ => None,
    };
    if let Some(t) = found {
        if let Some(a) = t.as_array() {
            if a.len() > 0 {
                return dup_values(a);
            }
        }
    }
    let mut out: Vec<Json> = Vec::new();
    out.push(make_single_task(goal));
    assert(json::array_view(out@) =~= seq![single_task(goal@)]);
    out
}

/// The report of an operation's result.
pub open spec fn result_report(r: IoResultV) -> JsonV {
    match r {
        IoResultV::Done(v) => JsonV::Object(seq![("ok"@, JsonV::Bool(true)), ("value"@, v)]),
        IoResultV::Error(e) => JsonV::Object(
            seq![("ok"@, JsonV::Bool(false)), ("error"@, JsonV::Str(e))],
        ),
        IoResultV::Timeout => JsonV::Object(
            seq![("ok"@, JsonV::Bool(false)), ("error"@, JsonV::Str("timeout"@))],
        ),
    }
}

/// Makes the report of an operation's result.
pub fn io_result_to_value(result: IoResult) -> (r: Json)
    ensures
        r@ == result_report(result@),
{
    let mut o = ObjectBuilder::new();
    match result {
        IoResult::Done(v) => {
            o.put("ok", Json::Bool(true));
            o.put("value", v);
        },
        IoResult::Error(e) => {
            o.put("ok", Json::Bool(false));
            o.put("error", Json::Str(e));
        },
        IoResult::Timeout => {
            o.put("ok", Json::Bool(false));
            o.put_str("error", "timeout");
        },
    }
    assert(JsonV::Object(o@) =~= result_report(result@)) by {
        assert(o@ =~= result_report(result@)->Object_0);
    }
    o.build()
}

/// The name of a reason.
pub open spec fn reason_name(r: ReasonV) -> JsonV {
    match r {
        ReasonV::Normal => JsonV::Str("normal"@),
        ReasonV::Shutdown => JsonV::Str("shutdown"@),
        ReasonV::Custom(s) => JsonV::Str(s),
    }
}

/// Makes the name of a reason.
pub fn reason_to_value(reason: Reason) -> (r: Json)
    ensures
        r@ == reason_name(reason@),
{
    match reason {
        Reason::Normal => Json::Str("normal".to_owned()),
        Reason::Shutdown => Json::Str("shutdown".to_owned()),
        Reason::Custom(s) => Json::Str(s),
    }
}

fn opt_text(v: &Json, k: &str) -> (r: Option<String>)
    ensures
        types::opt_str(r) == v@.get_text(k@),
{
    match v.get_str(k) {
        Some(s) => Some(s.clone()),
        None => None,
    }
}

/// The conversation that a task asks for.
pub open spec fn chat_of(task: JsonV) -> IoOpV {
    IoOpV::AgentChat {
        provider: match task.get_text("provider"@) {
            Some(s) => s,
            None => "openai"@,
        },
        model: task.get_text("model"@),
        system_prompt: task.get_text("system"@),
        prompt: match task.get_text("prompt"@) {
            Some(s) => s,
            None => match task.get_text("goal"@) {
                Some(s) => s,
                None => json::json_text(task),
            },
        },
        tools: match task.get("tools"@) {
            Some(t) => match t.items() {
                Some(a) => Some(json::texts(a)),
                None => None,
            },
            None => None,
        },
        max_iterations: match task.get_unsigned("max_iterations"@) {
            Some(n) => Some(n as usize),
            None => None,
        },
        timeout_ms: task.get_unsigned("timeout_ms"@),
    }
}

/// Makes the conversation that a task asks for. Without a prompt and a goal in words, the
/// text of the whole task is the prompt.
pub fn build_llm_request_from_task(task: &Json) -> (r: IoOp)
    ensures
        r@ == chat_of(task@),
{
    let provider: String = match task.get_str("provider") {
        Some(s) => s.clone(),
        None => "openai".to_owned(),
    };
    let prompt: String = match task.get_str("prompt") {
        Some(s) => s.clone(),
        None => match task.get_str("goal") {
            Some(s) => s.clone(),
            None => task.to_text(),
        },
    };
    let tools: Option<Vec<String>> = match task.get("tools") {
        Some(t) => match t.as_array() {
            Some(a) => Some(collect_texts(a)),
            None => None,
        },
        None => None,
    };
    let max_iterations: Option<usize> = match task.get_u64("max_iterations") {
        Some(n) => Some(n as usize),
        None => None,
    };
    IoOp::AgentChat {
        provider,
        model: opt_text(task, "model"),
        system_prompt: opt_text(task, "system"),
        prompt,
        tools,
        max_iterations,
        timeout_ms: task.get_u64("timeout_ms"),
    }
}

// ---------------------------------------------------------------------------
// Tasks in flight
// ---------------------------------------------------------------------------
/// The entries of `s` whose id is not `id`, in order.
pub open spec fn drop_id(s: Seq<(Seq<char>, JsonV)>, id: Seq<char>) -> Seq<(Seq<char>, JsonV)>
    decreases s.len(),
{
    if s.len() == 0 {
        s
    } else if s.last().0 == id {
        drop_id(s.drop_last(), id)
    } else {
        drop_id(s.drop_last(), id).push(s.last())
    }
}

/// Tasks by id, in the order in which they came.
pub struct TaskList {
    items: Vec<(String, Json)>,
}

impl View for TaskList {
    type V = Seq<(Seq<char>, JsonV)>;

    closed spec fn view(&self) -> Seq<(Seq<char>, JsonV)> {
        json::members_view(self.items@)
    }
}

impl TaskList {
    /// No tasks.
    pub fn new() -> (r: Self)
        ensures
            r@.len() == 0,
    {
        TaskList { items: Vec::new() }
    }

    /// Takes the task with an id out.
    pub fn remove(&mut self, id: &str)
        ensures
            final(self)@ == drop_id(old(self)@, id@),
    {
        let mut items: Vec<(String, Json)> = Vec::new();
        core::mem::swap(&mut items, &mut self.items);
        let ghost all = json::members_view(items@);
        let mut out: Vec<(String, Json)> = Vec::new();
        assert(json::members_view(out@) =~= drop_id(all.take(0), id@));
        for e in it: items
            invariant
                it.seq() == items@,
                all == json::members_view(items@),
                json::members_view(out@) == drop_id(all.take(it.index()), id@),
        {
            let ghost n = it.index();
            let ghost before = out@;
            assert(all.take(n + 1).drop_last() =~= all.take(n));
            assert(all.take(n + 1).last() == (e.0@, e.1@));
            if !str_eq(e.0.as_str(), id) {
                out.push(e);
                assert(json::members_view(out@) =~= json::members_view(before).push((e.0@, e.1@)));
            }
        }
        assert(all.take(all.len() as int) =~= all);
        self.items = out;
    }

    /// Puts a task under an id, in place of one that was there.
    pub fn put(&mut self, id: &str, task: Json)
        ensures
            final(self)@ == drop_id(old(self)@, id@).push((id@, task@)),
    {
        self.remove(id);
        let ghost before = self@;
        self.items.push((id.to_owned(), task));
        assert(self@ =~= before.push((id@, task@)));
    }
}

// ---------------------------------------------------------------------------
// The orchestrator
// ---------------------------------------------------------------------------
/// Something to be done to the checkpoint store.
#[derive(Debug)]
pub enum StoreOp {
    Save { key: String, checkpoint: Json },
    Delete { key: String },
}

/// What a store operation is.
pub enum StoreOpV {
    Save { key: Seq<char>, checkpoint: JsonV },
    Delete { key: Seq<char> },
}

impl View for StoreOp {
    type V = StoreOpV;

    open spec fn view(&self) -> StoreOpV {
        match self {
            StoreOp::Save { key, checkpoint } => StoreOpV::Save { key: key@, checkpoint: checkpoint@ },
            StoreOp::Delete { key } => StoreOpV::Delete { key: key@ },
        }
    }
}

/// What the operations of a list are.
pub open spec fn ops_view(s: Seq<StoreOp>) -> Seq<StoreOpV> {
    s.map_values(|o: StoreOp| o@)
}

/// Splits goals into tasks and lets workers do them.
pub struct OrchestratorBehavior {
    /// How many workers may be at work at a time; at least one always may.
    pub max_concurrency: usize,
    /// Whether progress is written to a checkpoint store.
    pub checkpointing: bool,
}

impl Default for OrchestratorBehavior {
    fn default() -> (r: Self)
        ensures
            r.max_concurrency == 1,
            !r.checkpointing,
    {
        OrchestratorBehavior { max_concurrency: 1, checkpointing: false }
    }
}

/// The state of an orchestrator.
pub struct OrchestratorState {
    pending_tasks: VecDeque<Json>,
    pending_spawn_tasks: VecDeque<Json>,
    active_workers: AssocMap<u64, String>,
    worker_monitors: AssocMap<u64, u64>,
    inflight_tasks: TaskList,
    results: Vec<Json>,
    requester: Option<AgentPid>,
    goal: Json,
    self_pid: Option<AgentPid>,
    checkpoint_key: String,
    resumed_from_checkpoint: bool,
    awaiting_decomposition: bool,
    decomposition_done: bool,
    store_ops: Vec<StoreOp>,
}

/// What the state of an orchestrator is.
#[verifier::ext_equal]
pub struct OrchV {
    /// Tasks that nobody has yet.
    pub pending: Seq<JsonV>,
    /// Tasks whose worker is being started.
    pub spawning: Seq<JsonV>,
    /// The workers at work, and the id of the task that each has.
    pub active: Map<u64, Seq<char>>,
    pub monitors: Map<u64, u64>,
    /// Tasks that a worker has.
    pub inflight: Seq<(Seq<char>, JsonV)>,
    pub results: Seq<JsonV>,
    pub requester: Option<AgentPid>,
    pub goal: JsonV,
    pub self_pid: Option<AgentPid>,
    pub key: Seq<char>,
    pub resumed: bool,
    pub awaiting: bool,
    pub decomposed: bool,
    /// What is to be done to the checkpoint store, in order.
    pub ops: Seq<StoreOpV>,
}

impl View for OrchestratorState {
    type V = OrchV;

    closed spec fn view(&self) -> OrchV {
        OrchV {
            pending: json::array_view(self.pending_tasks@),
            spawning: json::array_view(self.pending_spawn_tasks@),
            active: self.active_workers@.map_values(|s: String| s@),
            monitors: self.worker_monitors@,
            inflight: self.inflight_tasks@,
            results: json::array_view(self.results@),
            requester: self.requester,
            goal: self.goal@,
            self_pid: self.self_pid,
            key: self.checkpoint_key@,
            resumed: self.resumed_from_checkpoint,
            awaiting: self.awaiting_decomposition,
            decomposed: self.decomposition_done,
            ops: ops_view(self.store_ops@),
        }
    }
}

/// The greater of `n` and one.
pub open spec fn at_least_one(n: usize) -> nat {
    if n == 0 {
        1
    } else {
        n as nat
    }
}

/// There is a task to hand out and room for one more worker.
pub open spec fn can_spawn(s: OrchV, max_concurrency: usize) -> bool {
    &&& s.decomposed
    &&& !s.awaiting
    &&& s.pending.len() > 0
    &&& s.active.dom().len() + s.spawning.len() < at_least_one(max_concurrency)
}

/// The goal is split up, and no task is left.
pub open spec fn all_done(s: OrchV) -> bool {
    &&& s.decomposed
    &&& !s.awaiting
    &&& s.pending.len() == 0
    &&& s.spawning.len() == 0
    &&& s.active.dom().len() == 0
}

/// The tasks of a list of tasks in flight.
pub open spec fn tasks_of(s: Seq<(Seq<char>, JsonV)>) -> Seq<JsonV> {
    s.map_values(|e: (Seq<char>, JsonV)| e.1)
}

/// The checkpoint of an orchestration: the goal, the results so far, and all tasks that are
/// not done, whether anybody has them or not.
pub open spec fn checkpoint_of(s: OrchV) -> JsonV {
    JsonV::Object(
        seq![
            ("goal"@, s.goal),
            ("completed_results"@, JsonV::Array(s.results)),
            ("pending_tasks"@, JsonV::Array(s.pending + s.spawning + tasks_of(s.inflight))),
        ],
    )
}

/// The state once its checkpoint is to be saved, where there is a store.
pub open spec fn persisted(b: OrchestratorBehavior, s: OrchV) -> OrchV {
    if b.checkpointing {
        OrchV {
            ops: s.ops.push(StoreOpV::Save { key: s.key, checkpoint: checkpoint_of(s) }),
            ..s
        }
    } else {
        s
    }
}

/// The state once its checkpoint is to be dropped, where there is a store.
pub open spec fn cleared(b: OrchestratorBehavior, s: OrchV) -> OrchV {
    if b.checkpointing {
        OrchV { ops: s.ops.push(StoreOpV::Delete { key: s.key }), ..s }
    } else {
        s
    }
}

/// The report that an orchestration is complete.
pub open spec fn summary_of(s: OrchV) -> JsonV {
    JsonV::Object(
        seq![
            ("type"@, JsonV::Str("orchestration_complete"@)),
            ("goal"@, s.goal),
            ("results"@, JsonV::Array(s.results)),
        ],
    )
}

/// What a worker is started with.
pub open spec fn worker_args(parent: u64, task_id: Seq<char>) -> JsonV {
    JsonV::Object(
        seq![
            ("parent_pid"@, JsonV::Num(NumV::PosInt(parent))),
            ("task_id"@, JsonV::Str(task_id)),
        ],
    )
}

/// The number of an optional process id; zero for none.
pub open spec fn raw_or_zero(p: Option<AgentPid>) -> u64 {
    match p {
        Some(a) => a.0,
        None => 0,
    }
}

/// What comes next: a worker for the next task, the end of the orchestration, or nothing.
pub open spec fn next_step(b: OrchestratorBehavior, s: OrchV) -> (OrchV, ActionV<WorkerBehavior>) {
    if can_spawn(s, b.max_concurrency) {
        let task = s.pending[0];
        let fallback = "task-"@ + text::decimal(s.active.dom().len() + s.spawning.len());
        let t = OrchV {
            pending: s.pending.drop_first(),
            spawning: s.spawning.push(task),
            ..s
        };
        (
            persisted(b, t),
            ActionV::Spawn {
                behavior: WorkerBehavior,
                args: worker_args(raw_or_zero(s.self_pid), task_id_of(task, fallback)),
                link: false,
                monitor: true,
            },
        )
    } else if all_done(s) {
        (
            cleared(b, s),
            match s.requester {
                Some(to) => ActionV::Send { to, msg: MessageV::Json(summary_of(s)) },
                None => ActionV::Stop(ReasonV::Normal),
            },
        )
    } else {
        (s, ActionV::Continue)
    }
}

/// The message that ends a worker.
pub open spec fn shutdown_worker() -> JsonV {
    JsonV::Object(seq![("type"@, JsonV::Str("shutdown_worker"@))])
}

/// The message that gives a worker its task.
pub open spec fn run_task(child: u64, monitor: Option<u64>, id: Seq<char>, task: JsonV) -> JsonV {
    JsonV::Object(
        seq![
            ("type"@, JsonV::Str("run_task"@)),
            ("worker_pid"@, JsonV::Num(NumV::PosInt(child))),
            ("monitor_ref"@, match monitor {
                Some(m) => JsonV::Num(NumV::PosInt(m)),
                None => JsonV::Null,
            }),
            ("task_id"@, JsonV::Str(id)),
            ("task"@, task),
        ],
    )
}

/// The result that stands for a worker that did not end well.
pub open spec fn worker_error(pid: u64, id: Seq<char>, reason: ReasonV) -> JsonV {
    JsonV::Object(
        seq![
            ("type"@, JsonV::Str("worker_error"@)),
            ("worker_pid"@, JsonV::Num(NumV::PosInt(pid))),
            ("task_id"@, JsonV::Str(id)),
            ("reason"@, reason_name(reason)),
        ],
    )
}

/// The first of two optional process ids that is there.
pub open spec fn pid_or(a: Option<AgentPid>, b: Option<AgentPid>) -> Option<AgentPid> {
    match a {
        Some(_) => a,
        None => b,
    }
}

/// A worker is gone: its task is no longer in flight, and where it did not end well, that
/// is a result.
pub open spec fn worker_gone(s: OrchV, pid: u64, reason: ReasonV) -> OrchV {
    if s.active.dom().contains(pid) {
        let id = s.active[pid];
        OrchV {
            active: s.active.remove(pid),
            inflight: drop_id(s.inflight, id),
            results: if reason == ReasonV::Normal {
                s.results
            } else {
                s.results.push(worker_error(pid, id, reason))
            },
            ..s
        }
    } else {
        s
    }
}

/// What an orchestrator does with a JSON message.
pub open spec fn on_json(b: OrchestratorBehavior, s: OrchV, payload: JsonV) -> (
    OrchV,
    ActionV<WorkerBehavior>,
) {
    if payload.get_text("type"@) == Some("worker_result"@) {
        let t = persisted(
            b,
            OrchV {
                results: s.results.push(payload),
                inflight: match payload.get_text("task_id"@) {
                    Some(id) => drop_id(s.inflight, id),
                    None => s.inflight,
                },
                ..s
            },
        );
        match payload.get_unsigned("worker_pid"@) {
            Some(w) => (
                t,
                ActionV::Send { to: AgentPid(w), msg: MessageV::Json(shutdown_worker()) },
            ),
            None => next_step(b, t),
        }
    } else {
        let goal = match payload.get("goal"@) {
            Some(g) => g,
            None => payload,
        };
        let requester = pid_or(pid_member(payload, "requester_pid"@), s.requester);
        let self_pid = pid_or(pid_member(payload, "self_pid"@), s.self_pid);
        let restart = match payload.get("restart"@) {
            Some(v) => v.truth() == Some(true),
            None => false,
        };
        if s.resumed && json::same_json(goal, s.goal) && !restart {
            next_step(b, persisted(b, OrchV { requester, self_pid, resumed: false, ..s }))
        } else {
            (
                persisted(
                    b,
                    OrchV {
                        pending: Seq::empty(),
                        spawning: Seq::empty(),
                        active: Map::empty(),
                        monitors: Map::empty(),
                        inflight: Seq::empty(),
                        results: Seq::empty(),
                        requester,
                        goal,
                        self_pid,
                        key: s.key,
                        resumed: false,
                        awaiting: true,
                        decomposed: false,
                        ops: s.ops,
                    },
                ),
                ActionV::IoRequest(
                    IoOpV::Custom {
                        kind: "decompose_goal"@,
                        payload: JsonV::Object(seq![("goal"@, goal)]),
                    },
                ),
            )
        }
    }
}

/// What an orchestrator does with a message.
pub open spec fn orchestrate(b: OrchestratorBehavior, s: OrchV, msg: MessageV) -> (
    OrchV,
    ActionV<WorkerBehavior>,
) {
    match msg {
        MessageV::Json(payload) => on_json(b, s, payload),
        MessageV::System(SystemMsgV::IoResponse { correlation_id: _, result }) => next_step(
            b,
            persisted(
                b,
                OrchV {
                    awaiting: false,
                    decomposed: true,
                    pending: s.pending + tasks_from(s.goal, result),
                    ..s
                },
            ),
        ),
        MessageV::System(SystemMsgV::SpawnResult { child_pid, monitor_ref }) => if s.spawning.len()
            == 0 {
            next_step(b, s)
        } else {
            let task = s.spawning[0];
            let id = task_id_of(task, "task-"@ + text::decimal(child_pid as nat));
            (
                persisted(
                    b,
                    OrchV {
                        spawning: s.spawning.drop_first(),
                        active: s.active.insert(child_pid, id),
                        inflight: drop_id(s.inflight, id).push((id, task)),
                        monitors: match monitor_ref {
                            Some(m) => s.monitors.insert(child_pid, m),
                            None => s.monitors,
                        },
                        ..s
                    },
                ),
                ActionV::Send {
                    to: AgentPid(child_pid),
                    msg: MessageV::Json(run_task(child_pid, monitor_ref, id, task)),
                },
            )
        },
        MessageV::System(SystemMsgV::Down { monitor_ref: _, pid, reason }) => {
            let t = worker_gone(s, pid, reason);
            next_step(b, persisted(b, OrchV { monitors: t.monitors.remove(pid), ..t }))
        },
        _ => (s, ActionV::Continue),
    }
}

fn dup_queue(q: &VecDeque<Json>, out: &mut Vec<Json>)
    ensures
        json::array_view(final(out)@) == json::array_view(old(out)@) + json::array_view(q@),
{
    let mut i: usize = 0;
    let ghost all = json::array_view(q@);
    assert(json::array_view(out@) =~= json::array_view(old(out)@) + all.take(0));
    while i < q.len()
        invariant
            i <= q@.len(),
            all == json::array_view(q@),
            json::array_view(out@) == json::array_view(old(out)@) + all.take(i as int),
        decreases q@.len() - i,
    {
        let ghost before = out@;
        out.push(q[i].dup());
        i += 1;
        assert(json::array_view(out@) =~= json::array_view(before).push(all[i - 1]));
        assert(all.take(i as int) =~= all.take(i - 1).push(all[i - 1]));
        assert(json::array_view(out@) =~= json::array_view(old(out)@) + all.take(i as int));
    }
    assert(all.take(i as int) =~= all);
}

fn value_array(v: Vec<Json>) -> (r: Json)
    ensures
        r@ == JsonV::Array(json::array_view(v@)),
{
    proof {
        json::lemma_array_tree(v);
    }
    Json::Array(v)
}

fn make_worker_error(pid: u64, id: &str, reason: Reason) -> (r: Json)
    ensures
        r@ == worker_error(pid, id@, reason@),
{
    let mut o = ObjectBuilder::new();
    o.put_str("type", "worker_error");
    o.put_u64("worker_pid", pid);
    o.put_str("task_id", id);
    o.put("reason", reason_to_value(reason));
    assert(o@ =~= worker_error(pid, id@, reason@)->Object_0);
    o.build()
}

impl OrchestratorState {
    /// Whether there is a task to hand out and room for one more worker.
    pub fn can_spawn_more(&self, max_concurrency: usize) -> (r: bool)
        ensures
            r == can_spawn(self@, max_concurrency),
    {
        proof {
            assert(self@.active.dom() =~= self.active_workers@.dom());
        }
        if !self.decomposition_done || self.awaiting_decomposition {
            return false;
        }
        if self.pending_tasks.len() == 0 {
            return false;
        }
        let active: usize = self.active_workers.len();
        let spawning: usize = self.pending_spawn_tasks.len();
        let cap: usize = if max_concurrency == 0 { 1 } else { max_concurrency };
        active < cap && spawning < cap - active
    }

    /// Whether the orchestration is complete.
    pub fn is_complete(&self) -> (r: bool)
        ensures
            r == all_done(self@),
    {
        proof {
            assert(self@.active.dom() =~= self.active_workers@.dom());
        }
        self.decomposition_done && !self.awaiting_decomposition && self.pending_tasks.len() == 0
            && self.pending_spawn_tasks.len() == 0 && self.active_workers.len() == 0
    }

    /// The results so far.
    pub fn results(&self) -> (r: &Vec<Json>)
        ensures
            json::array_view(r@) == self@.results,
    {
        &self.results
    }

    /// Hands over what is to be done to the checkpoint store, in order.
    pub fn take_store_ops(&mut self) -> (r: Vec<StoreOp>)
        ensures
            ops_view(r@) == old(self)@.ops,
            final(self)@ == (OrchV { ops: Seq::empty(), ..old(self)@ }),
    {
        let mut ops: Vec<StoreOp> = Vec::new();
        core::mem::swap(&mut ops, &mut self.store_ops);
        assert(self@.ops =~= Seq::<StoreOpV>::empty());
        ops
    }

    /// The checkpoint of this orchestration.
    pub fn checkpoint(&self) -> (r: Json)
        ensures
            r@ == checkpoint_of(self@),
    {
        let mut tasks: Vec<Json> = Vec::new();
        assert(json::array_view(tasks@) =~= Seq::<JsonV>::empty());
        dup_queue(&self.pending_tasks, &mut tasks);
        dup_queue(&self.pending_spawn_tasks, &mut tasks);
        let ghost first = json::array_view(tasks@);
        assert(first =~= self@.pending + self@.spawning);
        let ghost infl = tasks_of(self@.inflight);
        let mut i: usize = 0;
        assert(json::array_view(tasks@) =~= first + infl.take(0));
        while i < self.inflight_tasks.items.len()
            invariant
                i <= self.inflight_tasks.items@.len(),
                infl == tasks_of(self.inflight_tasks@),
                infl.len() == self.inflight_tasks.items@.len(),
                json::array_view(tasks@) == first + infl.take(i as int),
            decreases self.inflight_tasks.items@.len() - i,
        {
            let ghost before = tasks@;
            tasks.push(self.inflight_tasks.items[i].1.dup());
            assert(json::array_view(tasks@) =~= json::array_view(before).push(infl[i as int]));
            assert(infl.take(i as int + 1) =~= infl.take(i as int).push(infl[i as int]));
            i += 1;
            assert(json::array_view(tasks@) =~= first + infl.take(i as int));
        }
        assert(infl.take(i as int) =~= infl);
        let mut o = ObjectBuilder::new();
        o.put("goal", self.goal.dup());
        o.put("completed_results", value_array(dup_values(&self.results)));
        o.put("pending_tasks", value_array(tasks));
        assert(o@ =~= checkpoint_of(self@)->Object_0);
        o.build()
    }

    /// A worker is gone.
    fn drop_worker(&mut self, pid: u64, reason: Reason)
        ensures
            final(self)@ == worker_gone(old(self)@, pid, reason@),
    {
        let normal: bool = match &reason {
            Reason::Normal => true,
            _ => false,
        };
        match self.active_workers.remove(&pid) {
            Some(id) => {
                self.inflight_tasks.remove(id.as_str());
                if !normal {
                    let ghost before = self.results@;
                    self.results.push(make_worker_error(pid, id.as_str(), reason));
                    assert(json::array_view(self.results@) =~= json::array_view(before).push(
                        worker_error(pid, id@, reason@),
                    ));
                }
                assert(self@.active =~= old(self)@.active.remove(pid));
            },
            None => {
                assert(self@.active =~= old(self)@.active);
            },
        }
    }
}

/// The key of an orchestrator's checkpoint.
pub open spec fn key_of(args: JsonV) -> Seq<char> {
    match args.get_text("checkpoint_key"@) {
        Some(s) => s,
        None => "orchestrator-default"@,
    }
}

/// Reads the key of an orchestrator's checkpoint from its start arguments.
pub fn checkpoint_key(args: &Json) -> (r: String)
    ensures
        r@ == key_of(args@),
{
    match args.get_str("checkpoint_key") {
        Some(s) => s.clone(),
        None => "orchestrator-default".to_owned(),
    }
}

/// The elements of an array member; none where there is no such array.
pub open spec fn items_member(v: JsonV, k: Seq<char>) -> Seq<JsonV> {
    match v.get(k) {
        Some(a) => match a.items() {
            Some(x) => x,
            None => Seq::empty(),
        },
        None => Seq::empty(),
    }
}

fn read_items(v: &Json, k: &str) -> (r: Vec<Json>)
    ensures
        json::array_view(r@) == items_member(v@, k@),
{
    if let Some(a) = v.get(k) {
        if let Some(x) = a.as_array() {
            return dup_values(x);
        }
    }
    let out: Vec<Json> = Vec::new();
    assert(json::array_view(out@) =~= Seq::<JsonV>::empty());
    out
}

/// The goal, the results and the open tasks of a checkpoint. One without a goal is none.
pub open spec fn restored(loaded: Option<JsonV>) -> Option<(JsonV, Seq<JsonV>, Seq<JsonV>)> {
    match loaded {
        Some(v) => match v.get("goal"@) {
            Some(g) => Some(
                (g, items_member(v, "completed_results"@), items_member(v, "pending_tasks"@)),
            ),
            None => None,
        },
        None => None,
    }
}

/// The state that an orchestrator starts with: where a checkpoint was found, it goes on from
/// there.
pub open spec fn started(args: JsonV, loaded: Option<JsonV>) -> OrchV {
    let fresh = OrchV {
        pending: Seq::empty(),
        spawning: Seq::empty(),
        active: Map::empty(),
        monitors: Map::empty(),
        inflight: Seq::empty(),
        results: Seq::empty(),
        requester: pid_member(args, "requester_pid"@),
        goal: match args.get("goal"@) {
            Some(g) => g,
            None => JsonV::Null,
        },
        self_pid: pid_member(args, "self_pid"@),
        key: key_of(args),
        resumed: false,
        awaiting: false,
        decomposed: false,
        ops: Seq::empty(),
    };
    match restored(loaded) {
        Some((goal, results, pending)) => OrchV {
            goal,
            results,
            pending,
            resumed: true,
            decomposed: true,
            ..fresh
        },
        None => fresh,
    }
}

/// What an optional value is.
pub open spec fn opt_json(o: Option<Json>) -> Option<JsonV> {
    match o {
        Some(j) => Some(j@),
        None => None,
    }
}

impl OrchestratorBehavior {
    /// The state that an orchestrator starts with. `loaded` is what the checkpoint store holds
    /// under [`checkpoint_key`], where there is a store.
    pub fn init_with(&self, args: &Json, loaded: Option<Json>) -> (r: OrchestratorState)
        ensures
            r@ == started(args@, opt_json(loaded)),
    {
        let mut goal: Json = match args.get("goal") {
            Some(g) => g.dup(),
            None => Json::Null,
        };
        let mut results: Vec<Json> = Vec::new();
        let mut pending: VecDeque<Json> = VecDeque::new();
        let mut resumed: bool = false;
        assert(json::array_view(results@) =~= Seq::<JsonV>::empty());
        assert(json::array_view(pending@) =~= Seq::<JsonV>::empty());
        if let Some(v) = loaded {
            if let Some(g) = v.get("goal") {
                goal = g.dup();
                results = read_items(&v, "completed_results");
                let items: Vec<Json> = read_items(&v, "pending_tasks");
                let ghost all = json::array_view(items@);
                assert(json::array_view(pending@) =~= all.take(0));
                for t in it: items
                    invariant
                        it.seq() == items@,
                        all == json::array_view(items@),
                        json::array_view(pending@) == all.take(it.index()),
                {
                    let ghost before = pending@;
                    let ghost n = it.index();
                    pending.push_back(t);
                    assert(json::array_view(pending@) =~= json::array_view(before).push(all[n]));
                    assert(all.take(n + 1) =~= all.take(n).push(all[n]));
                }
                assert(all.take(all.len() as int) =~= all);
                resumed = true;
            }
        }
        let r = OrchestratorState {
            pending_tasks: pending,
            pending_spawn_tasks: VecDeque::new(),
            active_workers: AssocMap::new(),
            worker_monitors: AssocMap::new(),
            inflight_tasks: TaskList::new(),
            results,
            requester: parse_pid(args, "requester_pid"),
            goal,
            self_pid: parse_pid(args, "self_pid"),
            checkpoint_key: checkpoint_key(args),
            resumed_from_checkpoint: resumed,
            awaiting_decomposition: false,
            decomposition_done: resumed,
            store_ops: Vec::new(),
        };
        proof {
            let goal_v = started(args@, opt_json(loaded));
            assert(r@.spawning =~= goal_v.spawning);
            assert(r@.active =~= goal_v.active);
            assert(r@.monitors =~= goal_v.monitors);
            assert(r@.inflight =~= goal_v.inflight);
            assert(r@.ops =~= goal_v.ops);
            assert(r@ =~= goal_v);
        }
        r
    }

    /// Has the checkpoint saved, where there is a store.
    pub fn persist_checkpoint(&self, state: &mut OrchestratorState)
        ensures
            final(state)@ == persisted(*self, old(state)@),
    {
        if self.checkpointing {
            let op = StoreOp::Save {
                key: state.checkpoint_key.clone(),
                checkpoint: state.checkpoint(),
            };
            let ghost before = state.store_ops@;
            state.store_ops.push(op);
            assert(ops_view(state.store_ops@) =~= ops_view(before).push(op@));
        }
    }

    /// Has the checkpoint dropped, where there is a store.
    pub fn clear_checkpoint(&self, state: &mut OrchestratorState)
        ensures
            final(state)@ == cleared(*self, old(state)@),
    {
        if self.checkpointing {
            let op = StoreOp::Delete { key: state.checkpoint_key.clone() };
            let ghost before = state.store_ops@;
            state.store_ops.push(op);
            assert(ops_view(state.store_ops@) =~= ops_view(before).push(op@));
        }
    }

    /// Starts a worker for the next task where there is room, and reports once all is done.
    pub fn next_or_finalize(&self, state: &mut OrchestratorState) -> (r: Action<WorkerBehavior>)
        ensures
            (final(state)@, r@) == next_step(*self, old(state)@),
    {
        let ghost s0 = state@;
        proof {
            assert(s0.active.dom() =~= state.active_workers@.dom());
        }
        if state.can_spawn_more(self.max_concurrency) {
            let active: usize = state.active_workers.len();
            let spawning: usize = state.pending_spawn_tasks.len();
            let number: String = u64_to_text((active + spawning) as u64);
            let fallback: String = concat2("task-", number.as_str());
            let ghost before = state.pending_tasks@;
            let ghost spawn_before = state.pending_spawn_tasks@;
            if let Some(task) = state.pending_tasks.pop_front() {
                assert(json::array_view(state.pending_tasks@) =~= s0.pending.drop_first());
                assert(task@ == s0.pending[0]);
                let task_id: String = extract_task_id(&task, fallback.as_str());
                state.pending_spawn_tasks.push_back(task);
                assert(json::array_view(state.pending_spawn_tasks@) =~= s0.spawning.push(task@));
                self.persist_checkpoint(state);
                let parent: u64 = match state.self_pid {
                    Some(p) => p.raw(),
                    None => 0,
                };
                let mut o = ObjectBuilder::new();
                o.put_u64("parent_pid", parent);
                o.put_str("task_id", task_id.as_str());
                assert(o@ =~= worker_args(parent, task_id@)->Object_0);
                return Action::Spawn {
                    behavior: WorkerBehavior,
                    args: o.build(),
                    link: false,
                    monitor: true,
                };
            }
            return Action::Continue;
        }
        if state.is_complete() {
            self.clear_checkpoint(state);
            match state.requester {
                Some(to) => {
                    let mut o = ObjectBuilder::new();
                    o.put_str("type", "orchestration_complete");
                    o.put("goal", state.goal.dup());
                    o.put("results", value_array(dup_values(&state.results)));
                    assert(o@ =~= summary_of(s0)->Object_0);
                    return Action::Send { to, msg: Message::Json(o.build()) };
                },
                None => {
                    return Action::Stop(Reason::Normal);
                },
            }
        }
        Action::Continue
    }

    /// Takes a JSON message: a worker's result, or a goal.
    fn handle_json(&self, payload: Json, state: &mut OrchestratorState) -> (r: Action<
        WorkerBehavior,
    >)
        ensures
            (final(state)@, r@) == on_json(*self, old(state)@, payload@),
    {
        let is_result: bool = match payload.get_str("type") {
            Some(t) => str_eq(t.as_str(), "worker_result"),
            None => false,
        };
        if is_result {
            let worker: Option<u64> = payload.get_u64("worker_pid");
            if let Some(id) = payload.get_str("task_id") {
                state.inflight_tasks.remove(id.as_str());
            }
            let ghost before = state.results@;
            state.results.push(payload);
            assert(json::array_view(state.results@) =~= json::array_view(before).push(payload@));
            self.persist_checkpoint(state);
            match worker {
                Some(w) => {
                    let mut o = ObjectBuilder::new();
                    o.put_str("type", "shutdown_worker");
                    assert(o@ =~= shutdown_worker()->Object_0);
                    Action::Send { to: AgentPid::from_raw(w), msg: Message::Json(o.build()) }
                },
                None => self.next_or_finalize(state),
            }
        } else {
            let goal: Json = match payload.get("goal") {
                Some(g) => g.dup(),
                None => payload.dup(),
            };
            if let Some(p) = parse_pid(&payload, "requester_pid") {
                state.requester = Some(p);
            }
            if let Some(p) = parse_pid(&payload, "self_pid") {
                state.self_pid = Some(p);
            }
            let restart: bool = match payload.get("restart") {
                Some(v) => match v.as_bool() {
                    Some(b) => b,
                    None => false,
                },
                None => false,
            };
            if state.resumed_from_checkpoint && goal.same(&state.goal) && !restart {
                state.resumed_from_checkpoint = false;
                self.persist_checkpoint(state);
                return self.next_or_finalize(state);
            }
            state.goal = goal;
            state.pending_tasks = VecDeque::new();
            state.pending_spawn_tasks = VecDeque::new();
            state.active_workers = AssocMap::new();
            state.worker_monitors = AssocMap::new();
            state.inflight_tasks = TaskList::new();
            state.results = Vec::new();
            state.resumed_from_checkpoint = false;
            state.awaiting_decomposition = true;
            state.decomposition_done = false;
            proof {
                assert(state@.pending =~= Seq::<JsonV>::empty());
                assert(state@.spawning =~= Seq::<JsonV>::empty());
                assert(state@.active =~= Map::<u64, Seq<char>>::empty());
                assert(state@.inflight =~= Seq::<(Seq<char>, JsonV)>::empty());
                assert(state@.results =~= Seq::<JsonV>::empty());
            }
            self.persist_checkpoint(state);
            let mut o = ObjectBuilder::new();
            o.put("goal", state.goal.dup());
            assert(o@ =~= seq![("goal"@, goal@)]);
            Action::IoRequest(IoOp::Custom { kind: "decompose_goal".to_owned(), payload: o.build() })
        }
    }

    /// Takes one message: a goal, a decomposition, a worker that has started or ended, or a
    /// worker's result. At most one thing is done after each.
    pub fn handle_message(&self, msg: Message, state: &mut OrchestratorState) -> (r: Action<
        WorkerBehavior,
    >)
        ensures
            (final(state)@, r@) == orchestrate(*self, old(state)@, msg@),
    {
        let ghost s0 = state@;
        match msg {
            Message::Json(payload) => self.handle_json(payload, state),
            Message::System(SystemMsg::IoResponse { correlation_id: _, result }) => {
                state.awaiting_decomposition = false;
                state.decomposition_done = true;
                let tasks: Vec<Json> = extract_tasks(&state.goal, &result);
                let ghost all = json::array_view(tasks@);
                let ghost mid = state@;
                assert(state@.pending =~= mid.pending + all.take(0));
                for t in it: tasks
                    invariant
                        it.seq() == tasks@,
                        all == json::array_view(tasks@),
                        state@ == (OrchV { pending: mid.pending + all.take(it.index()), ..mid }),
                {
                    let ghost before = state.pending_tasks@;
                    let ghost n = it.index();
                    state.pending_tasks.push_back(t);
                    assert(json::array_view(state.pending_tasks@) =~= json::array_view(
                        before,
                    ).push(all[n]));
                    assert(all.take(n + 1) =~= all.take(n).push(all[n]));
                    assert(state@.pending =~= mid.pending + all.take(n + 1));
                }
                assert(all.take(all.len() as int) =~= all);
                self.persist_checkpoint(state);
                self.next_or_finalize(state)
            },
            Message::System(SystemMsg::SpawnResult { child_pid, monitor_ref }) => {
                let task: Json = match state.pending_spawn_tasks.pop_front() {
                    Some(t) => t,
                    None => {
                        assert(state@.spawning =~= s0.spawning);
                        return self.next_or_finalize(state);
                    },
                };
                assert(state@.spawning =~= s0.spawning.drop_first());
                assert(task@ == s0.spawning[0]);
                let number: String = u64_to_text(child_pid);
                let fallback: String = concat2("task-", number.as_str());
                let task_id: String = extract_task_id(&task, fallback.as_str());
                state.active_workers.insert(child_pid, task_id.clone());
                assert(state@.active =~= s0.active.insert(child_pid, task_id@));
                state.inflight_tasks.put(task_id.as_str(), task.dup());
                if let Some(m) = monitor_ref {
                    state.worker_monitors.insert(child_pid, m);
                }
                self.persist_checkpoint(state);
                let mut o = ObjectBuilder::new();
                o.put_str("type", "run_task");
                o.put_u64("worker_pid", child_pid);
                match monitor_ref {
                    Some(m) => o.put_u64("monitor_ref", m),
                    None => o.put("monitor_ref", Json::Null),
                }
                o.put_str("task_id", task_id.as_str());
                o.put("task", task);
                assert(o@ =~= run_task(child_pid, monitor_ref, task_id@, task@)->Object_0);
                Action::Send { to: AgentPid::from_raw(child_pid), msg: Message::Json(o.build()) }
            },
            Message::System(SystemMsg::Down { monitor_ref: _, pid, reason }) => {
                state.drop_worker(pid, reason);
                state.worker_monitors.remove(&pid);
                self.persist_checkpoint(state);
                self.next_or_finalize(state)
            },
            _ => Action::Continue,
        }
    }

    /// Learns that a linked process has ended.
    pub fn handle_exit(
        &self,
        from: AgentPid,
        reason: Reason,
        state: &mut OrchestratorState,
    ) -> (r: Action<WorkerBehavior>)
        ensures
            (final(state)@, r@) == next_step(
                *self,
                persisted(*self, worker_gone(old(state)@, from.0, reason@)),
            ),
    {
        state.drop_worker(from.raw(), reason);
        self.persist_checkpoint(state);
        self.next_or_finalize(state)
    }
}

// ---------------------------------------------------------------------------
// The worker
// ---------------------------------------------------------------------------
/// Does one task.
#[derive(Debug, Clone, Copy)]
pub struct WorkerBehavior;

/// The state of a worker.
pub struct WorkerState {
    parent: AgentPid,
    task_id: String,
    awaiting_result: bool,
    worker_pid: Option<u64>,
    max_turns: usize,
    turn_count: usize,
}

/// What the state of a worker is.
pub struct WorkerV {
    pub parent: AgentPid,
    pub task_id: Seq<char>,
    pub awaiting: bool,
    pub worker_pid: Option<u64>,
    pub max_turns: usize,
    pub turns: usize,
}

impl View for WorkerState {
    type V = WorkerV;

    closed spec fn view(&self) -> WorkerV {
        WorkerV {
            parent: self.parent,
            task_id: self.task_id@,
            awaiting: self.awaiting_result,
            worker_pid: self.worker_pid,
            max_turns: self.max_turns,
            turns: self.turn_count,
        }
    }
}

/// The conversation that a follow-up asks for.
pub open spec fn follow_up_chat(prompt: Seq<char>) -> IoOpV {
    IoOpV::AgentChat {
        provider: "default"@,
        model: None,
        system_prompt: None,
        prompt,
        tools: None,
        max_iterations: None,
        timeout_ms: None,
    }
}

/// The text of a member, or the empty text.
pub open spec fn text_or_empty(v: JsonV, k: Seq<char>) -> Seq<char> {
    match v.get_text(k) {
        Some(s) => s,
        None => ""@,
    }
}

/// The message with which a worker hands in its result.
pub open spec fn worker_result(s: WorkerV, result: IoResultV) -> JsonV {
    JsonV::Object(
        seq![
            ("type"@, JsonV::Str("worker_result"@)),
            ("worker_pid"@, match s.worker_pid {
                Some(p) => JsonV::Num(NumV::PosInt(p)),
                None => JsonV::Null,
            }),
            ("task_id"@, JsonV::Str(s.task_id)),
            ("result"@, result_report(result)),
        ],
    )
}

/// What a worker does with a message.
pub open spec fn work(s: WorkerV, msg: MessageV) -> (WorkerV, ActionV<WorkerBehavior>) {
    match msg {
        MessageV::Json(payload) => {
            let kind = payload.get_text("type"@);
            if kind == Some("shutdown_worker"@) {
                (s, ActionV::Stop(ReasonV::Normal))
            } else if kind == Some("follow_up"@) {
                if s.awaiting {
                    (
                        s,
                        ActionV::Send {
                            to: s.parent,
                            msg: MessageV::Json(
                                JsonV::Object(seq![("type"@, JsonV::Str("worker_busy"@))]),
                            ),
                        },
                    )
                } else {
                    (
                        WorkerV { awaiting: true, ..s },
                        ActionV::IoRequest(follow_up_chat(text_or_empty(payload, "prompt"@))),
                    )
                }
            } else if kind == Some("run_task"@) {
                let task = match payload.get("task"@) {
                    Some(t) => t,
                    None => JsonV::Null,
                };
                (
                    WorkerV {
                        worker_pid: payload.get_unsigned("worker_pid"@),
                        task_id: match payload.get_text("task_id"@) {
                            Some(id) => id,
                            None => s.task_id,
                        },
                        awaiting: true,
                        ..s
                    },
                    ActionV::IoRequest(chat_of(task)),
                )
            } else {
                (s, ActionV::Continue)
            }
        },
        MessageV::System(SystemMsgV::IoResponse { correlation_id: _, result }) => {
            if !s.awaiting {
                (s, ActionV::Continue)
            } else {
                let t = WorkerV { awaiting: false, turns: s.turns.wrapping_add(1), ..s };
                if t.turns >= t.max_turns {
                    (t, ActionV::Stop(ReasonV::Normal))
                } else {
                    (
                        t,
                        ActionV::Send {
                            to: s.parent,
                            msg: MessageV::Json(worker_result(t, result)),
                        },
                    )
                }
            }
        },
        MessageV::System(SystemMsgV::ReceiveTimeout) => (s, ActionV::Stop(ReasonV::Shutdown)),
        _ => (s, ActionV::Continue),
    }
}

/// The state that a worker starts with.
pub open spec fn ready(args: JsonV) -> WorkerV {
    WorkerV {
        parent: AgentPid(args.get_unsigned("parent_pid"@)->0),
        task_id: task_id_of(args, "task"@),
        awaiting: false,
        worker_pid: None,
        max_turns: match args.get_unsigned("max_turns"@) {
            Some(n) => n as usize,
            None => 10,
        },
        turns: 0,
    }
}

impl WorkerBehavior {
    /// The state that a worker starts with. It needs the id of the process that it works for.
    pub fn init(&self, args: &Json) -> (r: Result<WorkerState, Reason>)
        ensures
            r is Ok <==> args@.get_unsigned("parent_pid"@) is Some,
            r matches Ok(s) ==> s@ == ready(args@),
            r matches Err(e) ==> e@ == ReasonV::Custom("worker init requires parent_pid"@),
    {
        let parent: AgentPid = match parse_pid(args, "parent_pid") {
            Some(p) => p,
            None => {
                return Err(Reason::Custom("worker init requires parent_pid".to_owned()));
            },
        };
        let max_turns: usize = match args.get_u64("max_turns") {
            Some(n) => n as usize,
            None => 10,
        };
        Ok(
            WorkerState {
                parent,
                task_id: extract_task_id(args, "task"),
                awaiting_result: false,
                worker_pid: None,
                max_turns,
                turn_count: 0,
            },
        )
    }

    /// Takes one message: a task, a follow-up, an answer, or the order to stop.
    pub fn handle_message(&self, msg: Message, state: &mut WorkerState) -> (r: Action<
        WorkerBehavior,
    >)
        ensures
            (final(state)@, r@) == work(old(state)@, msg@),
    {
        match msg {
            Message::Json(payload) => {
                let kind: String = match payload.get_str("type") {
                    Some(t) => t.clone(),
                    None => {
                        return Action::Continue;
                    },
                };
                if str_eq(kind.as_str(), "shutdown_worker") {
                    return Action::Stop(Reason::Normal);
                }
                if str_eq(kind.as_str(), "follow_up") {
                    if state.awaiting_result {
                        let mut o = ObjectBuilder::new();
                        o.put_str("type", "worker_busy");
                        assert(o@ =~= seq![("type"@, JsonV::Str("worker_busy"@))]);
                        return Action::Send { to: state.parent, msg: Message::Json(o.build()) };
                    }
                    let prompt: String = match payload.get_str("prompt") {
                        Some(p) => p.clone(),
                        None => "".to_owned(),
                    };
                    state.awaiting_result = true;
                    return Action::IoRequest(
                        IoOp::AgentChat {
                            provider: "default".to_owned(),
                            model: None,
                            system_prompt: None,
                            prompt,
                            tools: None,
                            max_iterations: None,
                            timeout_ms: None,
                        },
                    );
                }
                if !str_eq(kind.as_str(), "run_task") {
                    return Action::Continue;
                }
                state.worker_pid = payload.get_u64("worker_pid");
                if let Some(id) = payload.get_str("task_id") {
                    state.task_id = id.clone();
                }
                state.awaiting_result = true;
                match payload.get("task") {
                    Some(t) => Action::IoRequest(build_llm_request_from_task(t)),
                    None => Action::IoRequest(build_llm_request_from_task(&Json::Null)),
                }
            },
            Message::System(SystemMsg::IoResponse { correlation_id: _, result }) => {
                if !state.awaiting_result {
                    return Action::Continue;
                }
                state.awaiting_result = false;
                state.turn_count = state.turn_count.wrapping_add(1);
                if state.turn_count >= state.max_turns {
                    return Action::Stop(Reason::Normal);
                }
                let mut o = ObjectBuilder::new();
                o.put_str("type", "worker_result");
                match state.worker_pid {
                    Some(p) => o.put_u64("worker_pid", p),
                    None => o.put("worker_pid", Json::Null),
                }
                o.put_str("task_id", state.task_id.as_str());
                o.put("result", io_result_to_value(result));
                assert(o@ =~= worker_result(state@, result@)->Object_0);
                Action::Send { to: state.parent, msg: Message::Json(o.build()) }
            },
            Message::System(SystemMsg::ReceiveTimeout) => Action::Stop(Reason::Shutdown),
            _ => Action::Continue,
        }
    }

    /// A worker does nothing about the end of a linked process.
    pub fn handle_exit(&self, from: AgentPid, reason: Reason, state: &mut WorkerState) -> (r: Action<
        WorkerBehavior,
    >)
        ensures
            r@ == ActionV::<WorkerBehavior>::Continue,
            final(state)@ == old(state)@,
    {
        Action::Continue
    }
}

// ---------------------------------------------------------------------------
// What holds of every orchestration
// ---------------------------------------------------------------------------
/// How many workers are at work or being started.
pub open spec fn busy(s: OrchV) -> nat {
    s.active.dom().len() + s.spawning.len()
}

/// No message makes an orchestrator have more workers than it may have at a time.
pub proof fn law_concurrency_bounded(b: OrchestratorBehavior, s: OrchV, msg: MessageV)
    requires
        s.active.dom().finite(),
        busy(s) <= at_least_one(b.max_concurrency),
    ensures
        orchestrate(b, s, msg).0.active.dom().finite(),
        busy(orchestrate(b, s, msg).0) <= at_least_one(b.max_concurrency),
{
    match msg {
        MessageV::Json(payload) => {
            assert(Map::<u64, Seq<char>>::empty().dom().len() == 0);
        },
        MessageV::System(SystemMsgV::SpawnResult { child_pid, monitor_ref }) => {
            if s.spawning.len() > 0 {
                let task = s.spawning[0];
                let id = task_id_of(task, "task-"@ + text::decimal(child_pid as nat));
                assert(s.active.insert(child_pid, id).dom() =~= s.active.dom().insert(child_pid));
            }
        },
        MessageV::System(SystemMsgV::Down { monitor_ref, pid, reason }) => {
            assert(s.active.remove(pid).dom() =~= s.active.dom().remove(pid));
        },
        _ => {},
    }
}

/// The tasks that are not done.
pub open spec fn open_tasks(s: OrchV) -> Seq<JsonV> {
    s.pending + s.spawning + tasks_of(s.inflight)
}

/// A checkpoint gives back the goal, the results and all tasks that were not done when it was
/// made.
pub proof fn law_checkpoint_restores(s: OrchV)
    ensures
        restored(Some(checkpoint_of(s))) == Some((s.goal, s.results, open_tasks(s))),
{
    reveal_strlit("goal");
    reveal_strlit("completed_results");
    reveal_strlit("pending_tasks");
    let m = checkpoint_of(s)->Object_0;
    assert("goal"@.len() != "completed_results"@.len());
    assert("pending_tasks"@.len() != "completed_results"@.len());
    assert("goal"@.len() != "pending_tasks"@.len());
    reveal_with_fuel(json::member, 4);
    assert(m[0].0 == "goal"@);
    assert(m.drop_first()[0] == m[1]);
    assert(m.drop_first().drop_first()[0] == m[2]);
    assert(json::member(m, "goal"@) == Some(s.goal));
    assert(json::member(m, "completed_results"@) == Some(JsonV::Array(s.results)));
    assert(json::member(m, "pending_tasks"@) == Some(JsonV::Array(open_tasks(s))));
}

/// Handing out a task loses none: what is not done stays the same, counted with repetitions.
pub proof fn law_next_step_keeps_tasks(b: OrchestratorBehavior, s: OrchV)
    ensures
        open_tasks(next_step(b, s).0).to_multiset() == open_tasks(s).to_multiset(),
{
    broadcast use vstd::seq_lib::group_to_multiset_ensures;

    if can_spawn(s, b.max_concurrency) {
        let t = next_step(b, s).0;
        let x = s.pending[0];
        let rest = s.pending.drop_first();
        let infl = tasks_of(s.inflight);
        assert(s.pending =~= seq![x] + rest);
        vstd::seq_lib::lemma_multiset_commutative(seq![x] + rest + s.spawning, infl);
        vstd::seq_lib::lemma_multiset_commutative(rest + s.spawning.push(x), infl);
        vstd::seq_lib::lemma_multiset_commutative(seq![x] + rest, s.spawning);
        vstd::seq_lib::lemma_multiset_commutative(seq![x], rest);
        vstd::seq_lib::lemma_multiset_commutative(rest, s.spawning.push(x));
        vstd::seq_lib::lemma_multiset_commutative(s.spawning, seq![x]);
        assert(s.spawning.push(x) =~= s.spawning + seq![x]);
        assert(open_tasks(t) =~= rest + s.spawning.push(x) + infl);
        assert(open_tasks(s) =~= seq![x] + rest + s.spawning + infl);
        assert(open_tasks(t).to_multiset() =~= open_tasks(s).to_multiset());
    }
}

/// An orchestrator that starts from a checkpoint and gets the same goal again goes on with the
/// tasks that were not done: it asks for no new decomposition.
pub proof fn law_resume_skips_decomposition(b: OrchestratorBehavior, s: OrchV, payload: JsonV)
    requires
        s.resumed,
        payload.get_text("type"@) != Some("worker_result"@),
        payload.get("goal"@) matches Some(g) && json::same_json(g, s.goal),
        payload.get("restart"@) is None,
    ensures
        !(on_json(b, s, payload).1 is IoRequest),
        !on_json(b, s, payload).0.resumed,
        on_json(b, s, payload).0.results == s.results,
{
}

/// A worker that is waiting for an answer takes no second question: it tells its parent that
/// it is busy and stays as it is.
pub proof fn law_busy_worker_refuses(s: WorkerV, payload: JsonV)
    requires
        s.awaiting,
        payload.get_text("type"@) == Some("follow_up"@),
    ensures
        work(s, MessageV::Json(payload)).0 == s,
        work(s, MessageV::Json(payload)).1 matches ActionV::Send { to, msg } && to == s.parent,
{
    reveal_strlit("follow_up");
    reveal_strlit("shutdown_worker");
    assert("follow_up"@.len() != "shutdown_worker"@.len());
}

// ---------------------------------------------------------------------------
// What becomes of a goal
// ---------------------------------------------------------------------------
proof fn lemma_names()
    ensures
        "type"@ != "goal"@,
        "type"@ != "results"@,
        "goal"@ != "results"@,
        "parent_pid"@ != "task_id"@,
        "type"@ != "worker_pid"@,
        "type"@ != "monitor_ref"@,
        "type"@ != "task_id"@,
        "type"@ != "task"@,
        "type"@ != "reason"@,
        "type"@ != "result"@,
        "worker_pid"@ != "monitor_ref"@,
        "worker_pid"@ != "task_id"@,
        "worker_pid"@ != "task"@,
        "worker_pid"@ != "reason"@,
        "worker_pid"@ != "result"@,
        "monitor_ref"@ != "task_id"@,
        "monitor_ref"@ != "task"@,
        "task_id"@ != "task"@,
        "task_id"@ != "reason"@,
        "task_id"@ != "result"@,
        "ok"@ != "value"@,
        "ok"@ != "error"@,
        "task_id"@ != "goal"@,
{
    reveal_strlit("type");
    reveal_strlit("goal");
    reveal_strlit("results");
    reveal_strlit("parent_pid");
    reveal_strlit("task_id");
    reveal_strlit("worker_pid");
    reveal_strlit("monitor_ref");
    reveal_strlit("task");
    reveal_strlit("reason");
    reveal_strlit("result");
    reveal_strlit("ok");
    reveal_strlit("value");
    reveal_strlit("error");
    assert("type"@[1] == 'y' && "goal"@[1] == 'o' && "task"@[1] == 'a');
    assert("results"@[0] == 'r' && "parent_pid"@[0] == 'p');
    assert("type"@.len() == 4);
    assert("goal"@.len() == 4);
    assert("results"@.len() == 7);
    assert("parent_pid"@.len() == 10);
    assert("task_id"@.len() == 7);
    assert("worker_pid"@.len() == 10);
    assert("monitor_ref"@.len() == 11);
    assert("task"@.len() == 4);
    assert("reason"@.len() == 6);
    assert("result"@.len() == 6);
    assert("ok"@.len() == 2);
    assert("value"@.len() == 5);
    assert("error"@.len() == 5);
}

proof fn lemma_kinds()
    ensures
        "orchestration_complete"@ != "shutdown_worker"@,
        "orchestration_complete"@ != "run_task"@,
        "run_task"@ != "shutdown_worker"@,
        "run_task"@ != "follow_up"@,
        "follow_up"@ != "shutdown_worker"@,
        "worker_result"@ != "worker_error"@,
        "worker_result"@ != "run_task"@,
{
    reveal_strlit("orchestration_complete");
    reveal_strlit("shutdown_worker");
    reveal_strlit("run_task");
    reveal_strlit("follow_up");
    reveal_strlit("worker_result");
    reveal_strlit("worker_error");
    assert("orchestration_complete"@.len() == 22);
    assert("shutdown_worker"@.len() == 15);
    assert("run_task"@.len() == 8);
    assert("follow_up"@.len() == 9);
    assert("worker_result"@.len() == 13);
    assert("worker_error"@.len() == 12);
}

proof fn lemma_summary(s: OrchV)
    ensures
        summary_of(s).get_text("type"@) == Some("orchestration_complete"@),
        summary_of(s).get("goal"@) == Some(s.goal),
        summary_of(s).get("results"@) == Some(JsonV::Array(s.results)),
{
    lemma_names();
    let m = summary_of(s)->Object_0;
    json::lemma_member_at(m, 0);
    json::lemma_member_at(m, 1);
    json::lemma_member_at(m, 2);
}

/// No task is left: the goal is split up, and every task has been handed out and its worker is
/// gone.
pub open spec fn nothing_left(s: OrchV) -> bool {
    &&& s.decomposed
    &&& !s.awaiting
    &&& s.pending == Seq::<JsonV>::empty()
    &&& s.spawning == Seq::<JsonV>::empty()
    &&& s.active.dom() == Set::<u64>::empty()
}

/// Once no task is left, the requester is told, and told everything: the goal and all results in
/// the order in which they came. Without a requester the orchestrator stops.
pub proof fn law_report_holds_results(b: OrchestratorBehavior, s: OrchV)
    requires
        nothing_left(s),
    ensures
        match s.requester {
            Some(p) => next_step(b, s).1 matches ActionV::Send { to, msg: MessageV::Json(v) } && to == p
                && v.get_text("type"@) == Some("orchestration_complete"@) && v.get("goal"@) == Some(
                s.goal,
            ) && v.get("results"@) == Some(JsonV::Array(s.results)),
            None => next_step(b, s).1 == ActionV::<WorkerBehavior>::Stop(ReasonV::Normal),
        },
{
    lemma_summary(s);
    assert(s.active.dom().len() == 0);
}

/// Nothing is reported early: as long as a task is left, the step is a new worker or none at all,
/// and the step is a new worker exactly where a task waits and there is room.
pub proof fn law_no_early_report(b: OrchestratorBehavior, s: OrchV)
    requires
        s.active.dom().finite(),
        !nothing_left(s),
    ensures
        next_step(b, s).1 is Spawn || next_step(b, s).1 is Continue,
        next_step(b, s).1 is Spawn <==> s.decomposed && !s.awaiting && s.pending.len() > 0 && (
        s.active.dom().len() + s.spawning.len() < b.max_concurrency || s.active.dom().len()
            + s.spawning.len() == 0),
        next_step(b, s).1 is Continue ==> next_step(b, s).0 == s,
{
    if all_done(s) {
        assert(s.pending =~= Seq::<JsonV>::empty());
        assert(s.spawning =~= Seq::<JsonV>::empty());
        s.active.dom().lemma_len0_is_empty();
    }
}

/// A new worker is started for the task that waits longest: it learns whom it works for and the
/// id of the task, and the task waits for the worker behind those that already do.
pub proof fn law_first_task_first(b: OrchestratorBehavior, s: OrchV)
    requires
        next_step(b, s).1 is Spawn,
    ensures
        s.pending.len() > 0,
        s.pending == seq![s.pending[0]] + next_step(b, s).0.pending,
        next_step(b, s).0.spawning == s.spawning.push(s.pending[0]),
        next_step(b, s).0.active == s.active,
        next_step(b, s).0.inflight == s.inflight,
        next_step(b, s).0.results == s.results,
        next_step(b, s).0.goal == s.goal,
        next_step(b, s).0.requester == s.requester,
        next_step(b, s).1 matches ActionV::Spawn { behavior: _, args, link, monitor } && monitor && !link
            && (s.self_pid matches Some(p) ==> args.get_unsigned("parent_pid"@) == Some(p.0))
            && args.get_text("task_id"@) is Some && (s.pending[0].get_text("task_id"@) matches Some(
            id,
        ) ==> args.get_text("task_id"@) == Some(id)),
{
    lemma_names();
    assert(s.pending =~= seq![s.pending[0]] + s.pending.drop_first());
    let m = next_step(b, s).1->args->Object_0;
    json::lemma_member_at(m, 0);
    json::lemma_member_at(m, 1);
}

/// Messages one after the other: the state after them, and what is done after the last.
pub open spec fn run(b: OrchestratorBehavior, s: OrchV, msgs: Seq<MessageV>) -> (
    OrchV,
    ActionV<WorkerBehavior>,
)
    decreases msgs.len(),
{
    if msgs.len() == 0 {
        (s, ActionV::Continue)
    } else {
        orchestrate(b, run(b, s, msgs.drop_last()).0, msgs.last())
    }
}

/// A worker's result.
pub open spec fn is_result(msg: MessageV) -> bool {
    msg matches MessageV::Json(v) && v.get_text("type"@) == Some("worker_result"@)
}

/// A goal.
pub open spec fn is_goal(msg: MessageV) -> bool {
    msg is Json && !is_result(msg)
}

/// Results are only ever added, at the end, until another goal comes.
pub proof fn law_results_grow(b: OrchestratorBehavior, s: OrchV, msg: MessageV)
    requires
        !is_goal(msg),
    ensures
        s.results.is_prefix_of(orchestrate(b, s, msg).0.results),
        is_result(msg) ==> orchestrate(b, s, msg).0.results == s.results.push(msg->Json_0),
        orchestrate(b, s, msg).0.goal == s.goal,
        orchestrate(b, s, msg).0.requester == s.requester,
{
    let r = orchestrate(b, s, msg).0.results;
    assert(r == s.results || r.len() == s.results.len() + 1);
    assert(s.results =~= r.subrange(0, s.results.len() as int));
}

proof fn lemma_report_is_summary(b: OrchestratorBehavior, s: OrchV, msg: MessageV)
    requires
        orchestrate(b, s, msg).1 matches ActionV::Send { to: _, msg: MessageV::Json(v) } && v.get_text(
            "type"@,
        ) == Some("orchestration_complete"@),
    ensures
        ({
            let (t, act) = orchestrate(b, s, msg);
            &&& act->msg->Json_0.get("results"@) == Some(JsonV::Array(t.results))
            &&& act->msg->Json_0.get("goal"@) == Some(t.goal)
            &&& Some(act->to) == t.requester
        }),
{
    lemma_names();
    lemma_kinds();
    let (t, act) = orchestrate(b, s, msg);
    lemma_summary(t);
    let stop = shutdown_worker()->Object_0;
    json::lemma_member_at(stop, 0);
    match msg {
        MessageV::System(SystemMsgV::SpawnResult { child_pid, monitor_ref }) => {
            if s.spawning.len() > 0 {
                let task = s.spawning[0];
                let id = task_id_of(task, "task-"@ + text::decimal(child_pid as nat));
                lemma_run_task(child_pid, monitor_ref, id, task);
            }
        },
        _ => {},
    }
}

proof fn lemma_run_task(child: u64, monitor: Option<u64>, id: Seq<char>, task: JsonV)
    ensures
        ({
            let v = run_task(child, monitor, id, task);
            &&& v.get_text("type"@) == Some("run_task"@)
            &&& v.get_unsigned("worker_pid"@) == Some(child)
            &&& v.get_text("task_id"@) == Some(id)
            &&& v.get("task"@) == Some(task)
            &&& v.get_unsigned("monitor_ref"@) == monitor
        }),
{
    lemma_names();
    let m = run_task(child, monitor, id, task)->Object_0;
    json::lemma_member_at(m, 0);
    json::lemma_member_at(m, 1);
    json::lemma_member_at(m, 2);
    json::lemma_member_at(m, 3);
    json::lemma_member_at(m, 4);
}

/// Every result is reported: when the requester is told that a goal is done, the message holds,
/// under its member `results`, each result that a worker handed in since the goal came.
pub proof fn law_every_result_reported(
    b: OrchestratorBehavior,
    s: OrchV,
    msgs: Seq<MessageV>,
    i: int,
    v: JsonV,
)
    requires
        0 <= i < msgs.len(),
        is_result(msgs[i]),
        forall|j: int| i < j < msgs.len() ==> !is_goal(#[trigger] msgs[j]),
        run(b, s, msgs).1 matches ActionV::Send { to: _, msg } && msg == MessageV::Json(v),
        v.get_text("type"@) == Some("orchestration_complete"@),
    ensures
        v.get("results"@) matches Some(JsonV::Array(rs)) && rs.contains(msgs[i]->Json_0) && rs == run(
            b,
            s,
            msgs,
        ).0.results,
        run(b, s, msgs).1 matches ActionV::Send { to, msg: _ } && Some(to) == run(
            b,
            s,
            msgs,
        ).0.requester,
{
    lemma_report_is_summary(b, run(b, s, msgs.drop_last()).0, msgs.last());
    lemma_result_kept(b, s, msgs, i, msgs.len());
    assert(msgs.take(msgs.len() as int) =~= msgs);
}

proof fn lemma_result_kept(
    b: OrchestratorBehavior,
    s: OrchV,
    msgs: Seq<MessageV>,
    i: int,
    n: nat,
)
    requires
        0 <= i < n <= msgs.len(),
        is_result(msgs[i]),
        forall|j: int| i < j < msgs.len() ==> !is_goal(#[trigger] msgs[j]),
    ensures
        run(b, s, msgs.take(n as int)).0.results.contains(msgs[i]->Json_0),
    decreases n,
{
    let t = run(b, s, msgs.take(n - 1)).0;
    assert(msgs.take(n as int).drop_last() =~= msgs.take(n - 1));
    assert(msgs.take(n as int).last() == msgs[n - 1]);
    law_results_grow(b, t, msgs[n - 1]);
    let after = run(b, s, msgs.take(n as int)).0.results;
    if n == i + 1 {
        assert(after[after.len() - 1] == msgs[i]->Json_0);
    } else {
        lemma_result_kept(b, s, msgs, i, (n - 1) as nat);
        let k = choose|k: int| 0 <= k < t.results.len() && t.results[k] == msgs[i]->Json_0;
        assert(after[k] == t.results[k]);
    }
}

/// A goal is sent out to be split up, and with it everything about an earlier goal is forgotten;
/// who asked last is the requester.
pub proof fn law_goal_is_split_up(b: OrchestratorBehavior, s: OrchV, v: JsonV, goal: JsonV)
    requires
        !is_result(MessageV::Json(v)),
        !s.resumed,
        v.get("goal"@) == Some(goal),
    ensures
        ({
            let (t, act) = orchestrate(b, s, MessageV::Json(v));
            &&& act matches ActionV::IoRequest(IoOpV::Custom { kind, payload }) && kind
                == "decompose_goal"@ && payload.get("goal"@) == Some(goal)
            &&& t.goal == goal
            &&& t.awaiting
            &&& !t.decomposed
            &&& t.results.len() == 0
            &&& open_tasks(t).len() == 0
            &&& t.active.dom() == Set::<u64>::empty()
            &&& v.get_unsigned("requester_pid"@) matches Some(p) ==> t.requester == Some(
                AgentPid(p),
            )
            &&& v.get_unsigned("requester_pid"@) is None ==> t.requester == s.requester
            &&& v.get_unsigned("self_pid"@) matches Some(p) ==> t.self_pid == Some(AgentPid(p))
        }),
{
    let (t, act) = orchestrate(b, s, MessageV::Json(v));
    json::lemma_member_at(seq![("goal"@, goal)], 0);
    assert(t.active.dom() =~= Set::<u64>::empty());
}

/// The tasks that a decomposition lists are those to be done, all of them and in their order;
/// where it lists none, the goal itself is the one task.
pub proof fn law_listed_tasks_wait(b: OrchestratorBehavior, s: OrchV, id: u64, v: JsonV, a: Seq<JsonV>)
    requires
        v.get("tasks"@) == Some(JsonV::Array(a)),
    ensures
        ({
            let msg = MessageV::System(
                SystemMsgV::IoResponse { correlation_id: id, result: IoResultV::Done(v) },
            );
            let t = orchestrate(b, s, msg).0;
            &&& t.decomposed && !t.awaiting
            &&& a.len() > 0 && orchestrate(b, s, msg).1 is Spawn ==> seq![(s.pending + a)[0]] + t.pending
                == s.pending + a && t.spawning == s.spawning.push((s.pending + a)[0])
            &&& a.len() > 0 && !(orchestrate(b, s, msg).1 is Spawn) ==> t.pending == s.pending + a
                && t.spawning == s.spawning
        }),
{
    let all = s.pending + a;
    if a.len() > 0 {
        assert(seq![all[0]] + all.drop_first() =~= all);
    }
}

/// A goal that cannot be split up is done as one task.
pub proof fn law_goal_is_one_task(b: OrchestratorBehavior, s: OrchV, id: u64, result: IoResultV)
    requires
        !(result is Done),
        s.active.dom().finite(),
        open_tasks(s).len() == 0,
        s.active.dom().len() == 0,
    ensures
        ({
            let (t, act) = orchestrate(
                b,
                s,
                MessageV::System(SystemMsgV::IoResponse { correlation_id: id, result }),
            );
            &&& act is Spawn
            &&& t.pending.len() == 0
            &&& t.spawning.len() == 1
            &&& t.spawning[0].get("goal"@) == Some(s.goal)
            &&& t.spawning[0].get_text("task_id"@) == Some("task-0"@)
        }),
{
    lemma_names();
    let m = single_task(s.goal)->Object_0;
    json::lemma_member_at(m, 0);
    json::lemma_member_at(m, 1);
    assert(s.pending.len() == 0 && s.spawning.len() == 0);
    let p = s.pending + seq![single_task(s.goal)];
    assert(p[0] == single_task(s.goal));
}

/// A worker that has started gets the task that waited longest for one, whole, and no other; it
/// then counts as at work on that task.
pub proof fn law_worker_gets_task(
    b: OrchestratorBehavior,
    s: OrchV,
    child: u64,
    monitor: Option<u64>,
)
    requires
        s.spawning.len() > 0,
    ensures
        ({
            let (t, act) = orchestrate(
                b,
                s,
                MessageV::System(SystemMsgV::SpawnResult { child_pid: child, monitor_ref: monitor }),
            );
            let task = s.spawning[0];
            &&& act matches ActionV::Send { to, msg: MessageV::Json(v) } && to == AgentPid(child)
                && v.get_text("type"@) == Some("run_task"@) && v.get("task"@) == Some(task)
                && v.get_unsigned("worker_pid"@) == Some(child) && v.get_unsigned("monitor_ref"@)
                == monitor && v.get_text("task_id"@) == Some(t.active[child])
            &&& task.get_text("task_id"@) matches Some(id) ==> t.active[child] == id
            &&& t.active.dom() == s.active.dom().insert(child)
            &&& forall|k: u64| #[trigger] s.active.dom().contains(k) && k != child ==> t.active[k] == s.active[k]
            &&& seq![task] + t.spawning == s.spawning
            &&& t.pending == s.pending
            &&& t.inflight.len() > 0 && t.inflight.last() == (t.active[child], task)
            &&& t.results == s.results
        }),
{
    let task = s.spawning[0];
    let id = task_id_of(task, "task-"@ + text::decimal(child as nat));
    lemma_run_task(child, monitor, id, task);
    assert(seq![task] + s.spawning.drop_first() =~= s.spawning);
    assert(s.active.insert(child, id).dom() =~= s.active.dom().insert(child));
}

proof fn lemma_dropped(s: Seq<(Seq<char>, JsonV)>, id: Seq<char>)
    ensures
        drop_id(s, id) == s.filter(|e: (Seq<char>, JsonV)| e.0 != id),
    decreases s.len(),
{
    reveal(Seq::filter);
    if s.len() > 0 {
        lemma_dropped(s.drop_last(), id);
    } else {
        assert(s =~= Seq::empty());
    }
}

/// A result that a worker hands in is kept; its task is no longer in flight, all others still
/// are; and the worker is told to stop.
pub proof fn law_result_is_kept(b: OrchestratorBehavior, s: OrchV, v: JsonV, w: u64, id: Seq<char>)
    requires
        v.get_text("type"@) == Some("worker_result"@),
        v.get_unsigned("worker_pid"@) == Some(w),
        v.get_text("task_id"@) == Some(id),
    ensures
        ({
            let (t, act) = orchestrate(b, s, MessageV::Json(v));
            &&& t.results == s.results.push(v)
            &&& t.inflight == s.inflight.filter(|e: (Seq<char>, JsonV)| e.0 != id)
            &&& t.pending == s.pending && t.spawning == s.spawning && t.active == s.active
            &&& act matches ActionV::Send { to, msg: MessageV::Json(m) } && to == AgentPid(w)
                && m.get_text("type"@) == Some("shutdown_worker"@)
        }),
{
    lemma_dropped(s.inflight, id);
    json::lemma_member_at(shutdown_worker()->Object_0, 0);
}

/// A worker that is gone has no task any more. Where it did not end well, that is a result of its
/// own: it names the worker, the task and the reason.
pub proof fn law_lost_worker_is_a_result(
    b: OrchestratorBehavior,
    s: OrchV,
    monitor: u64,
    pid: u64,
    reason: ReasonV,
)
    requires
        s.active.dom().contains(pid),
    ensures
        ({
            let t = orchestrate(
                b,
                s,
                MessageV::System(SystemMsgV::Down { monitor_ref: monitor, pid, reason }),
            ).0;
            let id = s.active[pid];
            &&& t.active == s.active.remove(pid)
            &&& t.inflight == s.inflight.filter(|e: (Seq<char>, JsonV)| e.0 != id)
            &&& reason is Normal ==> t.results == s.results
            &&& !(reason is Normal) ==> t.results.len() == s.results.len() + 1
                && t.results.drop_last() == s.results && ({
                let v = t.results.last();
                &&& v.get_text("type"@) == Some("worker_error"@)
                &&& v.get_unsigned("worker_pid"@) == Some(pid)
                &&& v.get_text("task_id"@) == Some(s.active[pid])
                &&& v.get_text("reason"@) is Some
                &&& reason matches ReasonV::Custom(x) ==> v.get_text("reason"@) == Some(x)
            })
        }),
{
    lemma_names();
    lemma_dropped(s.inflight, s.active[pid]);
    let t = orchestrate(
        b,
        s,
        MessageV::System(SystemMsgV::Down { monitor_ref: monitor, pid, reason }),
    ).0;
    let m = worker_error(pid, s.active[pid], reason)->Object_0;
    json::lemma_member_at(m, 0);
    json::lemma_member_at(m, 1);
    json::lemma_member_at(m, 2);
    json::lemma_member_at(m, 3);
    if !(reason is Normal) {
        assert(t.results.drop_last() =~= s.results);
    }
}

/// An orchestration of one task from its end: once the worker of the last task has handed in its
/// result and is gone, the requester gets the report, with this result last.
pub proof fn law_last_result_ends(
    b: OrchestratorBehavior,
    s: OrchV,
    v: JsonV,
    w: u64,
    monitor: u64,
    p: AgentPid,
)
    requires
        s.decomposed,
        !s.awaiting,
        s.pending.len() == 0,
        s.spawning.len() == 0,
        s.active.dom() == set![w],
        s.requester == Some(p),
        v.get_text("type"@) == Some("worker_result"@),
        v.get_unsigned("worker_pid"@) == Some(w),
    ensures
        ({
            let down = MessageV::System(
                SystemMsgV::Down { monitor_ref: monitor, pid: w, reason: ReasonV::Normal },
            );
            run(b, s, seq![MessageV::Json(v), down]).1 matches ActionV::Send {
                to,
                msg: MessageV::Json(m),
            } && to == p && m.get_text("type"@) == Some("orchestration_complete"@) && m.get(
                "results"@,
            ) == Some(JsonV::Array(s.results.push(v)))
        }),
{
    let down = MessageV::System(
        SystemMsgV::Down { monitor_ref: monitor, pid: w, reason: ReasonV::Normal },
    );
    let msgs = seq![MessageV::Json(v), down];
    assert(msgs.drop_last() =~= seq![MessageV::Json(v)]);
    assert(seq![MessageV::Json(v)].drop_last() =~= Seq::<MessageV>::empty());
    reveal_with_fuel(run, 3);
    let t = orchestrate(b, s, MessageV::Json(v)).0;
    let g = worker_gone(t, w, ReasonV::Normal);
    assert(s.active.dom().contains(w));
    assert(g.active.dom() =~= Set::<u64>::empty());
    let u = persisted(b, OrchV { monitors: g.monitors.remove(w), ..g });
    assert(u.pending =~= Seq::<JsonV>::empty());
    assert(u.spawning =~= Seq::<JsonV>::empty());
    law_report_holds_results(b, u);
}

/// With a checkpoint store, the checkpoint is up to date after every message that changes what it
/// holds: what is saved last under the key gives back the goal, the results and all tasks that are
/// not done.
pub proof fn law_checkpoint_up_to_date(b: OrchestratorBehavior, s: OrchV, msg: MessageV)
    requires
        b.checkpointing,
        s.active.dom().finite(),
        orchestrate(b, s, msg).0.results != s.results || orchestrate(b, s, msg).0.goal != s.goal
            || open_tasks(orchestrate(b, s, msg).0) != open_tasks(s),
    ensures
        ({
            let (t, act) = orchestrate(b, s, msg);
            &&& t.key == s.key
            &&& t.ops.len() > s.ops.len()
            &&& s.ops.is_prefix_of(t.ops)
            &&& t.ops.last() matches StoreOpV::Save { key, checkpoint } ==> key == s.key && restored(
                Some(checkpoint),
            ) == Some((t.goal, t.results, open_tasks(t)))
            &&& t.ops.last() matches StoreOpV::Delete { key } ==> key == s.key && nothing_left(t)
        }),
{
    let (t, act) = orchestrate(b, s, msg);
    law_checkpoint_restores(t);
    assert(s.ops.len() < t.ops.len());
    assert(s.ops =~= t.ops.subrange(0, s.ops.len() as int));
    if t.ops.last() is Save {
        let c = t.ops.last()->checkpoint;
        assert(c == checkpoint_of(t));
    } else {
        assert(t.pending =~= Seq::<JsonV>::empty());
        assert(t.spawning =~= Seq::<JsonV>::empty());
        t.active.dom().lemma_len0_is_empty();
    }
}

/// An orchestrator that is started with a saved checkpoint has the goal, the results and the tasks
/// that were not done, and is to hand the tasks out.
pub proof fn law_restart_goes_on(args: JsonV, s: OrchV)
    ensures
        ({
            let t = started(args, Some(checkpoint_of(s)));
            &&& t.goal == s.goal
            &&& t.results == s.results
            &&& t.pending == s.pending + s.spawning + tasks_of(s.inflight)
            &&& t.spawning.len() == 0 && t.inflight.len() == 0 && t.active.dom().len() == 0
            &&& t.decomposed && t.resumed && !t.awaiting
            &&& t.ops.len() == 0
        }),
{
    law_checkpoint_restores(s);
}

/// Without a checkpoint there is nothing to do until a goal comes.
pub proof fn law_start_is_empty(args: JsonV)
    ensures
        ({
            let t = started(args, None);
            &&& open_tasks(t).len() == 0
            &&& t.results.len() == 0
            &&& t.active.dom().len() == 0
            &&& !t.decomposed && !t.resumed && !t.awaiting
            &&& args.get("goal"@) matches Some(g) ==> t.goal == g
            &&& args.get_unsigned("requester_pid"@) matches Some(p) ==> t.requester == Some(
                AgentPid(p),
            )
            &&& args.get_text("checkpoint_key"@) matches Some(k) ==> t.key == k
        }),
{
}

/// A worker asks for what its task says.
pub proof fn law_worker_asks_task(s: WorkerV, v: JsonV, task: JsonV)
    requires
        v.get_text("type"@) == Some("run_task"@),
        v.get("task"@) == Some(task),
    ensures
        ({
            let (t, act) = work(s, MessageV::Json(v));
            &&& t.awaiting
            &&& t.parent == s.parent
            &&& t.turns == s.turns
            &&& t.worker_pid == v.get_unsigned("worker_pid"@)
            &&& v.get_text("task_id"@) matches Some(id) ==> t.task_id == id
            &&& act matches ActionV::IoRequest(IoOpV::AgentChat {
                provider,
                model,
                system_prompt,
                prompt,
                tools: _,
                max_iterations: _,
                timeout_ms,
            }) && (task.get_text("prompt"@) matches Some(x) ==> prompt == x) && (task.get_text(
                "prompt"@,
            ) is None && task.get_text("goal"@) is Some ==> Some(prompt) == task.get_text("goal"@))
                && (task.get_text("provider"@) matches Some(x) ==> provider == x) && model
                == task.get_text("model"@) && system_prompt == task.get_text("system"@)
                && timeout_ms == task.get_unsigned("timeout_ms"@)
        }),
{
    lemma_kinds();
}

/// What a worker gets as an answer it hands on to the one it works for, with its own id and that
/// of its task; an error is handed on as one.
pub proof fn law_answer_is_handed_in(s: WorkerV, id: u64, result: IoResultV)
    requires
        s.awaiting,
        s.turns + 1 < s.max_turns,
    ensures
        ({
            let (t, act) = work(
                s,
                MessageV::System(SystemMsgV::IoResponse { correlation_id: id, result }),
            );
            &&& !t.awaiting
            &&& t.turns == s.turns + 1
            &&& act matches ActionV::Send { to, msg: MessageV::Json(v) } && to == s.parent
                && is_result(MessageV::Json(v)) && v.get_text("task_id"@) == Some(s.task_id)
                && v.get_unsigned("worker_pid"@) == s.worker_pid && (v.get("result"@) matches Some(r)
                && (result matches IoResultV::Done(x) ==> r.get("ok"@) == Some(JsonV::Bool(true))
                && r.get("value"@) == Some(x)) && (result matches IoResultV::Error(e) ==> r.get(
                "ok"@,
            ) == Some(JsonV::Bool(false)) && r.get_text("error"@) == Some(e)) && (result is Timeout
                ==> r.get("ok"@) == Some(JsonV::Bool(false)) && r.get_text("error"@) == Some(
                "timeout"@,
            )))
        }),
{
    lemma_names();
    let t = WorkerV { awaiting: false, turns: s.turns.wrapping_add(1), ..s };
    let m = worker_result(t, result)->Object_0;
    json::lemma_member_at(m, 0);
    json::lemma_member_at(m, 1);
    json::lemma_member_at(m, 2);
    json::lemma_member_at(m, 3);
    let r = result_report(result)->Object_0;
    json::lemma_member_at(r, 0);
    json::lemma_member_at(r, 1);
}

/// A worker stops where it is told to, after its last turn, and where nothing comes for too long;
/// an answer that it does not wait for changes nothing.
pub proof fn law_worker_stops(s: WorkerV, v: JsonV, id: u64, result: IoResultV)
    ensures
        v.get_text("type"@) == Some("shutdown_worker"@) ==> work(s, MessageV::Json(v)) == (
            s,
            ActionV::<WorkerBehavior>::Stop(ReasonV::Normal),
        ),
        work(s, MessageV::System(SystemMsgV::ReceiveTimeout)).1 == ActionV::<WorkerBehavior>::Stop(
            ReasonV::Shutdown,
        ),
        s.awaiting && s.turns < usize::MAX && s.turns + 1 >= s.max_turns ==> work(
            s,
            MessageV::System(SystemMsgV::IoResponse { correlation_id: id, result }),
        ).1 == ActionV::<WorkerBehavior>::Stop(ReasonV::Normal),
        !s.awaiting ==> work(
            s,
            MessageV::System(SystemMsgV::IoResponse { correlation_id: id, result }),
        ) == (s, ActionV::<WorkerBehavior>::Continue),
{
}

/// A worker that is free takes a follow-up: it asks the question that the follow-up holds.
pub proof fn law_follow_up_is_asked(s: WorkerV, v: JsonV, q: Seq<char>)
    requires
        !s.awaiting,
        v.get_text("type"@) == Some("follow_up"@),
        v.get_text("prompt"@) == Some(q),
    ensures
        ({
            let (t, act) = work(s, MessageV::Json(v));
            &&& t.awaiting
            &&& t.task_id == s.task_id && t.worker_pid == s.worker_pid && t.turns == s.turns
            &&& act matches ActionV::IoRequest(IoOpV::AgentChat {
                provider: _,
                model: _,
                system_prompt: _,
                prompt,
                tools: _,
                max_iterations: _,
                timeout_ms: _,
            }) && prompt == q
        }),
{
    lemma_kinds();
}

/// The outcome of an operation is reported as it was: what it gave, or what went wrong.
pub proof fn law_outcome_is_reported(v: JsonV, e: Seq<char>)
    ensures
        result_report(IoResultV::Done(v)).get("ok"@) == Some(JsonV::Bool(true)),
        result_report(IoResultV::Done(v)).get("value"@) == Some(v),
        result_report(IoResultV::Error(e)).get("ok"@) == Some(JsonV::Bool(false)),
        result_report(IoResultV::Error(e)).get_text("error"@) == Some(e),
        result_report(IoResultV::Timeout).get("ok"@) == Some(JsonV::Bool(false)),
        result_report(IoResultV::Timeout).get_text("error"@) == Some("timeout"@),
        reason_name(ReasonV::Custom(e)) == JsonV::Str(e),
{
    reveal_strlit("ok");
    reveal_strlit("value");
    reveal_strlit("error");
    assert("ok"@.len() == 2 && "value"@.len() == 5 && "error"@.len() == 5);
    let a = seq![("ok"@, JsonV::Bool(true)), ("value"@, v)];
    let b = seq![("ok"@, JsonV::Bool(false)), ("error"@, JsonV::Str(e))];
    let c = seq![("ok"@, JsonV::Bool(false)), ("error"@, JsonV::Str("timeout"@))];
    json::lemma_member_at(a, 0);
    json::lemma_member_at(a, 1);
    json::lemma_member_at(b, 0);
    json::lemma_member_at(b, 1);
    json::lemma_member_at(c, 0);
    json::lemma_member_at(c, 1);
}

/// A task may name its tools and its limits; they are those of the conversation that it asks for.
pub proof fn law_task_sets_limits(task: JsonV, a: Seq<JsonV>)
    ensures
        chat_of(task) matches IoOpV::AgentChat {
            provider: _,
            model,
            system_prompt,
            prompt: _,
            tools,
            max_iterations,
            timeout_ms,
        } && model == task.get_text("model"@) && system_prompt == task.get_text("system"@)
            && timeout_ms == task.get_unsigned("timeout_ms"@) && (task.get("tools"@) == Some(
            JsonV::Array(a),
        ) ==> tools == Some(
            a.filter(|v: JsonV| v is Str).map_values(|v: JsonV| v->Str_0),
        )) && (task.get("tools"@) is None ==> tools is None) && (task.get_unsigned(
            "max_iterations"@,
        ) matches Some(n) ==> max_iterations == Some(n as usize)),
{
    json::law_texts_of_list(a);
}

} // verus!
