//! The scheduler: three queues by priority, and turns of at most a fixed number of messages.
use std::collections::VecDeque;
use vstd::prelude::*;
use crate::agent_rt::observability;
use crate::agent_rt::observability::ProcessSnapshot;
use crate::agent_rt::process;
use crate::agent_rt::registry;
use crate::agent_rt::process::{AgentProcess, Priority, ProcV, ProcessStatus};
use crate::agent_rt::registry::{AgentRegistry, RegV};
use crate::agent_rt::types::{
    Action, AgentBehavior, AgentPid, Message, PidSource, Reason, SystemMsg,
};
use crate::json::Json;

verus! {

/// How many messages a process may take in one turn.
pub const DEFAULT_REDUCTIONS: u32 = 200;

/// How many turns normal processes may take before a low one gets its turn.
pub const NORMAL_ADVANTAGE: usize = 8;

/// Runs the processes of a registry in turns.
pub struct AgentScheduler<B: AgentBehavior> {
    pub registry: AgentRegistry<B>,
    pub queue_high: VecDeque<AgentPid>,
    pub queue_normal: VecDeque<AgentPid>,
    pub queue_low: VecDeque<AgentPid>,
    pub advantage_count: usize,
    /// Messages to processes that are not here are kept for somebody else to deliver.
    pub external_routing: bool,
    pub outbound: Vec<(AgentPid, Message)>,
}

/// What a scheduler is.
#[verifier::ext_equal]
pub struct SchedV<B: AgentBehavior> {
    pub reg: RegV<B>,
    pub high: Seq<AgentPid>,
    pub normal: Seq<AgentPid>,
    pub low: Seq<AgentPid>,
    pub advantage: usize,
    pub external: bool,
    pub outbound: Seq<(AgentPid, Message)>,
}

impl<B: AgentBehavior> View for AgentScheduler<B> {
    type V = SchedV<B>;

    open spec fn view(&self) -> SchedV<B> {
        SchedV {
            reg: self.registry@,
            high: self.queue_high@,
            normal: self.queue_normal@,
            low: self.queue_low@,
            advantage: self.advantage_count,
            external: self.external_routing,
            outbound: self.outbound@,
        }
    }
}

/// The process goes to the end of the queue of its priority; an unknown one goes nowhere.
pub open spec fn enqueued<B: AgentBehavior>(s: SchedV<B>, pid: AgentPid) -> SchedV<B> {
    if !s.reg.procs.dom().contains(pid.0) {
        s
    } else {
        match s.reg.procs[pid.0].priority {
            Priority::High => SchedV { high: s.high.push(pid), ..s },
            Priority::Normal => SchedV { normal: s.normal.push(pid), ..s },
            Priority::Low => SchedV { low: s.low.push(pid), ..s },
        }
    }
}

/// A process that takes the place of the one with the same id.
pub open spec fn with_process<B: AgentBehavior>(s: SchedV<B>, pid: AgentPid, p: ProcV<B>) -> SchedV<
    B,
> {
    SchedV { reg: RegV { procs: s.reg.procs.insert(pid.0, p), ..s.reg }, ..s }
}

/// A message is delivered; where the receiver waited, it is queued. A message to an unknown
/// process changes nothing.
pub open spec fn sent<B: AgentBehavior>(s: SchedV<B>, to: AgentPid, msg: Message) -> SchedV<B> {
    if !s.reg.procs.dom().contains(to.0) {
        s
    } else {
        let p = s.reg.procs[to.0];
        let t = with_process(s, to, process::delivered(p, msg));
        if p.status == ProcessStatus::Waiting {
            enqueued(t, to)
        } else {
            t
        }
    }
}

/// A message of a process here: it is delivered, or where the receiver is not here, it is kept
/// for somebody else to deliver if there is such a one.
pub open spec fn routed<B: AgentBehavior>(s: SchedV<B>, to: AgentPid, msg: Message) -> SchedV<B> {
    if !s.reg.procs.dom().contains(to.0) && s.external {
        SchedV { outbound: s.outbound.push((to, msg)), ..s }
    } else {
        sent(s, to, msg)
    }
}

/// Messages of processes here, one after the other.
pub open spec fn sent_all<B: AgentBehavior>(
    s: SchedV<B>,
    msgs: Seq<(AgentPid, Message)>,
) -> SchedV<B>
    decreases msgs.len(),
{
    if msgs.len() == 0 {
        s
    } else {
        routed(sent_all(s, msgs.drop_last()), msgs.last().0, msgs.last().1)
    }
}

/// Which process is next, and what is left of the queues. The high queue comes first. The
/// normal queue comes before the low one, but once it has been ahead [`NORMAL_ADVANTAGE`] times,
/// a low process that waits is next.
pub open spec fn picked_next<B: AgentBehavior>(s: SchedV<B>) -> (SchedV<B>, Option<AgentPid>) {
    if s.high.len() > 0 {
        (SchedV { high: s.high.drop_first(), ..s }, Some(s.high[0]))
    } else if s.normal.len() > 0 {
        if s.advantage < NORMAL_ADVANTAGE || s.low.len() == 0 {
            (
                SchedV {
                    normal: s.normal.drop_first(),
                    advantage: s.advantage.wrapping_add(1),
                    ..s
                },
                Some(s.normal[0]),
            )
        } else {
            (SchedV { low: s.low.drop_first(), advantage: 0, ..s }, Some(s.low[0]))
        }
    } else if s.low.len() > 0 {
        (SchedV { low: s.low.drop_first(), ..s }, Some(s.low[0]))
    } else {
        (s, None)
    }
}

/// The exit messages to the processes linked to one that ends.
pub open spec fn exit_messages(links: Seq<AgentPid>, pid: AgentPid, reason: Reason) -> Seq<
    (AgentPid, Message),
> {
    links.map_values(
        |l: AgentPid| (l, Message::System(SystemMsg::Exit { from: pid.0, reason })),
    )
}

/// A process ends: it is gone with its names, and those linked to it are told.
pub open spec fn ended<B: AgentBehavior>(s: SchedV<B>, pid: AgentPid, reason: Reason) -> SchedV<B> {
    if !s.reg.procs.dom().contains(pid.0) {
        s
    } else {
        sent_all(
            SchedV { reg: registry::removed(s.reg, pid), ..s },
            exit_messages(s.reg.procs[pid.0].links, pid, reason),
        )
    }
}

/// Why a turn is over.
#[derive(Debug)]
pub enum TurnEnd {
    /// The process has used up its reductions.
    OutOfReductions,
    /// The mailbox is empty.
    Drained,
    /// The behavior wants the process to stop.
    Stopped(Reason),
    /// The process waits for an operation.
    WaitingForIo,
    /// The process has no state to take messages with.
    NoState,
}

/// A turn so far.
#[verifier::ext_equal]
pub struct TurnV<B: AgentBehavior> {
    pub proc: ProcV<B>,
    pub sends: Seq<(AgentPid, Message)>,
    pub spawns: Seq<(B, Json)>,
    pub end: Option<TurnEnd>,
}

/// What a behavior answers to one message: what it wants done, and the state it leaves.
pub type Answer<B, S> = (Action<B>, S);

/// The turn after one more answer.
pub open spec fn after_answer<B: AgentBehavior>(t: TurnV<B>, a: Answer<B, B::State>) -> TurnV<B> {
    let p = ProcV {
        mailbox: t.proc.mailbox.drop_first(),
        reductions: (t.proc.reductions - 1) as u32,
        state: Some(a.1),
        ..t.proc
    };
    match a.0 {
        Action::Continue => TurnV { proc: p, ..t },
        Action::Send { to, msg } => TurnV { proc: p, sends: t.sends.push((to, msg)), ..t },
        Action::Stop(r) => TurnV { proc: p, end: Some(TurnEnd::Stopped(r)), ..t },
        Action::IoRequest(_) => TurnV {
            proc: ProcV { status: ProcessStatus::Waiting, ..p },
            end: Some(TurnEnd::WaitingForIo),
            ..t
        },
        Action::Spawn { behavior, args, link: _, monitor: _ } => TurnV {
            proc: p,
            spawns: t.spawns.push((behavior, args)),
            ..t
        },
    }
}

/// The turn of a process whose behavior gave these answers, one to each message from the
/// front of the mailbox.
pub open spec fn turn<B: AgentBehavior>(p: ProcV<B>, answers: Seq<Answer<B, B::State>>) -> TurnV<B>
    decreases answers.len(),
{
    if answers.len() == 0 {
        TurnV {
            proc: ProcV { reductions: DEFAULT_REDUCTIONS, ..p },
            sends: Seq::empty(),
            spawns: Seq::empty(),
            end: None,
        }
    } else {
        after_answer(turn(p, answers.drop_last()), answers.last())
    }
}

/// Why the turn is over now, if it is.
pub open spec fn turn_over<B: AgentBehavior>(t: TurnV<B>) -> Option<TurnEnd> {
    if t.end is Some {
        t.end
    } else if t.proc.reductions == 0 {
        Some(TurnEnd::OutOfReductions)
    } else if t.proc.mailbox.len() == 0 {
        Some(TurnEnd::Drained)
    } else if t.proc.state is None {
        Some(TurnEnd::NoState)
    } else {
        None
    }
}

/// Lets a behavior take a message in the given state.
pub fn ask<B: AgentBehavior>(b: &B, msg: Message, state: B::State) -> (r: Answer<B, B::State>)
    ensures
        exists|m: &mut B::State|
            *m == state && *final(m) == r.1 && #[trigger] call_ensures(
                B::handle_message,
                (b, msg, m),
                r.0,
            ),
{
    let mut st: B::State = state;
    let action: Action<B> = b.handle_message(msg, &mut st);
    let ghost after = st;
    let ghost m = choose|m: &mut B::State|
        *m == state && *final(m) == after && #[trigger] call_ensures(
            B::handle_message,
            (b, msg, m),
            action,
        );
    let r: Answer<B, B::State> = (action, st);
    assert(call_ensures(B::handle_message, (b, msg, m), r.0));
    r
}

/// The behavior answers `a` to `msg` in the state `before`.
pub open spec fn answered<B: AgentBehavior>(b: B, msg: Message, before: B::State, a: Answer<B, B::State>) -> bool {
    call_ensures(ask::<B>, (&b, msg, before), a)
}

/// The answer at `k` was due: the turn was not over, and the behavior gave it to the message
/// at the front of the mailbox, in the state that the process had then.
pub open spec fn due<B: AgentBehavior>(p: ProcV<B>, answers: Seq<Answer<B, B::State>>, k: int) -> bool {
    let t = turn(p, answers.take(k));
    &&& turn_over(t) is None
    &&& answered(t.proc.behavior, t.proc.mailbox[0], t.proc.state->0, answers[k])
}

/// The turn is over after exactly these answers.
pub open spec fn full_turn<B: AgentBehavior>(p: ProcV<B>, answers: Seq<Answer<B, B::State>>) -> bool {
    &&& turn_over(turn(p, answers)) is Some
    &&& forall|k: int| 0 <= k < answers.len() ==> #[trigger] due(p, answers, k)
}

/// The process as a turn that is over leaves it: it waits where its mailbox is empty, and a
/// message that found no state is lost.
pub open spec fn left_by<B: AgentBehavior>(t: TurnV<B>) -> ProcV<B> {
    match turn_over(t) {
        Some(TurnEnd::Drained) => ProcV { status: ProcessStatus::Waiting, ..t.proc },
        Some(TurnEnd::NoState) => ProcV {
            mailbox: t.proc.mailbox.drop_first(),
            reductions: (t.proc.reductions - 1) as u32,
            ..t.proc
        },
        _ => t.proc,
    }
}

/// Processes started one after the other. For each there is the state that its behavior gave
/// it, or nothing where the behavior refused; the id is used up either way.
pub open spec fn spawned_all<B: AgentBehavior>(
    s: SchedV<B>,
    spawns: Seq<(B, Json)>,
    states: Seq<Option<B::State>>,
) -> SchedV<B>
    decreases spawns.len(),
{
    if spawns.len() == 0 {
        s
    } else {
        let t = spawned_all(s, spawns.drop_last(), states.drop_last());
        spawned(t, spawns.last().0, states.last())
    }
}

/// One process started and queued, where the behavior gave it a state.
pub open spec fn spawned<B: AgentBehavior>(s: SchedV<B>, behavior: B, state: Option<B::State>) -> SchedV<
    B,
> {
    let pid = AgentPid(s.reg.next);
    let t = SchedV { reg: RegV { next: registry::pid_after(s.reg.next), ..s.reg }, ..s };
    match state {
        Some(st) => enqueued(with_process(t, pid, process::fresh_process(pid, behavior, st)), pid),
        None => t,
    }
}

/// The scheduler after a turn of `pid`: the process is left as the turn leaves it and queued
/// again where it ran out of reductions; then its messages go out, then its children start,
/// and last of all it ends where its behavior said so.
pub open spec fn after_turn<B: AgentBehavior>(
    s: SchedV<B>,
    pid: AgentPid,
    answers: Seq<Answer<B, B::State>>,
    states: Seq<Option<B::State>>,
) -> SchedV<B> {
    let t = turn(s.reg.procs[pid.0], answers);
    finished(with_process(s, pid, left_by(t)), pid, t.sends, t.spawns, states, turn_over(t)->0)
}

/// What is done when a turn is over.
pub open spec fn finished<B: AgentBehavior>(
    s: SchedV<B>,
    pid: AgentPid,
    sends: Seq<(AgentPid, Message)>,
    spawns: Seq<(B, Json)>,
    states: Seq<Option<B::State>>,
    end: TurnEnd,
) -> SchedV<B> {
    let a = if end is OutOfReductions {
        enqueued(s, pid)
    } else {
        s
    };
    let c = spawned_all(sent_all(a, sends), spawns, states);
    match end {
        TurnEnd::Stopped(r) => ended(c, pid, r),
        _ => c,
    }
}

/// The behavior of a process that is there was told that the process ends.
pub open spec fn told<B: AgentBehavior>(s: SchedV<B>, pid: AgentPid, reason: Reason) -> bool {
    s.reg.procs.dom().contains(pid.0) ==> process::told_end(s.reg.procs[pid.0], reason)
}

/// Where a turn ends with its process, the behavior was told so.
pub open spec fn finish_told<B: AgentBehavior>(
    s: SchedV<B>,
    pid: AgentPid,
    sends: Seq<(AgentPid, Message)>,
    spawns: Seq<(B, Json)>,
    states: Seq<Option<B::State>>,
    end: TurnEnd,
) -> bool {
    match end {
        TurnEnd::Stopped(r) => told(spawned_all(sent_all(s, sends), spawns, states), pid, r),
        _ => true,
    }
}

/// Where the turn of `pid` ends with it, its behavior was told so.
pub open spec fn turn_told<B: AgentBehavior>(
    s: SchedV<B>,
    pid: AgentPid,
    answers: Seq<Answer<B, B::State>>,
    states: Seq<Option<B::State>>,
) -> bool {
    let t = turn(s.reg.procs[pid.0], answers);
    finish_told(with_process(s, pid, left_by(t)), pid, t.sends, t.spawns, states, turn_over(t)->0)
}

/// One turn: the process that is next has it, where it is there and can run; otherwise it only
/// leaves the queue.
pub open spec fn ticked<B: AgentBehavior>(s0: SchedV<B>, s1: SchedV<B>, worked: bool) -> bool {
    let (s, who) = picked_next(s0);
    match who {
        Some(pid) => if s.reg.procs.dom().contains(pid.0) && s.reg.procs[pid.0].status
            == ProcessStatus::Runnable {
            &&& worked
            &&& exists|answers: Seq<Answer<B, B::State>>, states: Seq<Option<B::State>>| #[trigger]
                turn_of(s.reg.procs[pid.0], answers, states) && s1 == after_turn(
                    s,
                    pid,
                    answers,
                    states,
                ) && turn_told(s, pid, answers, states)
        } else {
            !worked && s1 == s
        },
        None => !worked && s1 == s,
    }
}

/// What a turn hands back to the scheduler.
pub struct Turn<B> {
    pub sends: Vec<(AgentPid, Message)>,
    pub spawns: Vec<(B, Json)>,
    pub end: TurnEnd,
}

/// Gives a process its turn: its behavior takes messages from the front of the mailbox until
/// the reductions or the messages are used up, or until it stops or waits for an operation.
pub fn run_turn<B: AgentBehavior>(proc: &mut AgentProcess<B>) -> (r: Turn<B>)
    ensures
        exists|answers: Seq<Answer<B, B::State>>| #[trigger]
            full_turn(old(proc)@, answers) && {
                let t = turn(old(proc)@, answers);
                &&& final(proc)@ == left_by(t)
                &&& r.sends@ == t.sends
                &&& r.spawns@ == t.spawns
                &&& Some(r.end) == turn_over(t)
            },
{
    proc.reductions = DEFAULT_REDUCTIONS;
    let mut sends: Vec<(AgentPid, Message)> = Vec::new();
    let mut spawns: Vec<(B, Json)> = Vec::new();
    let ghost p0 = old(proc)@;
    let ghost mut answers: Seq<Answer<B, B::State>> = Seq::empty();
    loop
        invariant
            p0 == old(proc)@,
            turn(p0, answers).end is None,
            turn(p0, answers).proc == proc@,
            turn(p0, answers).sends == sends@,
            turn(p0, answers).spawns == spawns@,
            forall|k: int| 0 <= k < answers.len() ==> #[trigger] due(p0, answers, k),
        decreases proc.reductions,
    {
        let ghost t = turn(p0, answers);
        if proc.reductions == 0 {
            assert(full_turn(p0, answers));
            return Turn { sends, spawns, end: TurnEnd::OutOfReductions };
        }
        let msg: Message = match proc.next_message() {
            Some(m) => m,
            None => {
                proc.status = ProcessStatus::Waiting;
                assert(full_turn(p0, answers));
                return Turn { sends, spawns, end: TurnEnd::Drained };
            },
        };
        proc.reductions = proc.reductions - 1;
        let state: B::State = match proc.state.take() {
            Some(s) => s,
            None => {
                assert(proc@ =~= left_by(t));
                assert(full_turn(p0, answers));
                return Turn { sends, spawns, end: TurnEnd::NoState };
            },
        };
        let ghost before = state;
        let (action, state) = ask(&proc.behavior, msg, state);
        assert(answered(proc.behavior, msg, before, (action, state)));
        proc.state = Some(state);
        proof {
            let next = answers.push((action, state));
            assert(next.drop_last() =~= answers);
            assert forall|k: int| 0 <= k < next.len() implies #[trigger] due(p0, next, k) by {
                if k < answers.len() {
                    assert(next.take(k) =~= answers.take(k));
                    assert(due(p0, answers, k));
                } else {
                    assert(next.take(k) =~= answers);
                }
            }
            answers = next;
        }
        match action {
            Action::Continue => {},
            Action::Send { to, msg } => {
                sends.push((to, msg));
            },
            Action::Stop(reason) => {
                assert(full_turn(p0, answers));
                return Turn { sends, spawns, end: TurnEnd::Stopped(reason) };
            },
            Action::IoRequest(_) => {
                proc.status = ProcessStatus::Waiting;
                assert(full_turn(p0, answers));
                return Turn { sends, spawns, end: TurnEnd::WaitingForIo };
            },
            Action::Spawn { behavior, args, link: _, monitor: _ } => {
                spawns.push((behavior, args));
            },
        }
    }
}

impl<B: AgentBehavior> AgentScheduler<B> {
    /// The registry is well formed.
    pub open spec fn wf(&self) -> bool {
        self.registry.wf()
    }

    /// A scheduler without processes. Its ids start from the first one: schedulers beside each
    /// other get sources of their own, see [`AgentScheduler::with_pids`].
    pub fn new() -> (r: Self)
        ensures
            r.wf(),
            r@.reg.procs == Map::<u64, ProcV<B>>::empty(),
            r@.reg.names == Map::<Seq<char>, AgentPid>::empty(),
            r@.reg.next == crate::agent_rt::types::FIRST_AGENT_PID,
            r@.high.len() == 0,
            r@.normal.len() == 0,
            r@.low.len() == 0,
            r@.advantage == 0,
            !r@.external,
            r@.outbound.len() == 0,
    {
        Self::with_pids(PidSource::new())
    }

    /// A scheduler without processes; their ids come from the given source.
    pub fn with_pids(pids: PidSource) -> (r: Self)
        ensures
            r.wf(),
            r@.reg.procs == Map::<u64, ProcV<B>>::empty(),
            r@.reg.names == Map::<Seq<char>, AgentPid>::empty(),
            r@.reg.next == pids@,
            r@.high.len() == 0,
            r@.normal.len() == 0,
            r@.low.len() == 0,
            r@.advantage == 0,
            !r@.external,
            r@.outbound.len() == 0,
    {
        AgentScheduler {
            registry: AgentRegistry::with_pids(pids),
            queue_high: VecDeque::new(),
            queue_normal: VecDeque::new(),
            queue_low: VecDeque::new(),
            advantage_count: 0,
            external_routing: false,
            outbound: Vec::new(),
        }
    }

    /// Says whether somebody else delivers messages to processes that are not here.
    pub fn set_external_routing(&mut self, external: bool)
        requires
            old(self).wf(),
        ensures
            final(self).wf(),
            final(self)@ == (SchedV { external, ..old(self)@ }),
    {
        self.external_routing = external;
    }

    /// Takes the messages that somebody else has to deliver.
    pub fn drain_outbound_messages(&mut self) -> (r: Vec<(AgentPid, Message)>)
        requires
            old(self).wf(),
        ensures
            final(self).wf(),
            r@ == old(self)@.outbound,
            final(self)@ == (SchedV { outbound: Seq::empty(), ..old(self)@ }),
    {
        let mut out: Vec<(AgentPid, Message)> = Vec::new();
        core::mem::swap(&mut out, &mut self.outbound);
        out
    }

    /// Puts a process at the end of the queue of its priority.
    pub fn enqueue(&mut self, pid: AgentPid)
        requires
            old(self).wf(),
        ensures
            final(self).wf(),
            final(self)@ == enqueued(old(self)@, pid),
    {
        let priority: Priority = match self.registry.lookup(&pid) {
            Some(p) => p.priority,
            None => {
                return;
            },
        };
        match priority {
            Priority::High => self.queue_high.push_back(pid),
            Priority::Normal => self.queue_normal.push_back(pid),
            Priority::Low => self.queue_low.push_back(pid),
        }
    }

    /// Takes the process that is next out of the queues.
    pub fn next_runnable(&mut self) -> (r: Option<AgentPid>)
        requires
            old(self).wf(),
        ensures
            final(self).wf(),
            (final(self)@, r) == picked_next(old(self)@),
    {
        if self.queue_high.len() > 0 {
            let r = self.queue_high.pop_front();
            assert(self@.high =~= old(self)@.high.drop_first());
            return r;
        }
        if self.queue_normal.len() > 0 {
            if self.advantage_count < NORMAL_ADVANTAGE || self.queue_low.len() == 0 {
                self.advantage_count = self.advantage_count.wrapping_add(1);
                let r = self.queue_normal.pop_front();
                assert(self@.normal =~= old(self)@.normal.drop_first());
                return r;
            }
            self.advantage_count = 0;
            let r = self.queue_low.pop_front();
            assert(self@.low =~= old(self)@.low.drop_first());
            return r;
        }
        if self.queue_low.len() > 0 {
            let r = self.queue_low.pop_front();
            assert(self@.low =~= old(self)@.low.drop_first());
            r
        } else {
            None
        }
    }

    /// Delivers a message to a process. One that waited is queued again.
    pub fn send(&mut self, to: AgentPid, msg: Message) -> (r: Result<(), String>)
        requires
            old(self).wf(),
        ensures
            final(self).wf(),
            final(self)@ == sent(old(self)@, to, msg),
            r is Ok <==> old(self)@.reg.procs.dom().contains(to.0),
            r matches Err(e) ==> e@ == not_found_text(to),
    {
        let was_waiting: bool = match self.registry.lookup_mut(&to) {
            Some(p) => {
                let was: bool = p.status == ProcessStatus::Waiting;
                p.deliver_message(msg);
                was
            },
            None => {
                return Err(not_found(to));
            },
        };
        assert(self@ == with_process(old(self)@, to, process::delivered(old(self)@.reg.procs[to.0], msg)));
        if was_waiting {
            self.enqueue(to);
        }
        Ok(())
    }

    /// Delivers messages one after the other; those to unknown processes are kept for somebody
    /// else, or lost.
    fn send_all(&mut self, msgs: Vec<(AgentPid, Message)>)
        requires
            old(self).wf(),
        ensures
            final(self).wf(),
            final(self)@ == sent_all(old(self)@, msgs@),
    {
        let ghost s0 = self@;
        let ghost all = msgs@;
        assert(all.take(0) =~= Seq::<(AgentPid, Message)>::empty());
        for m in it: msgs
            invariant
                it.seq() == all,
                self.wf(),
                self@ == sent_all(s0, all.take(it.index())),
        {
            let ghost n = it.index();
            assert(all.take(n + 1).drop_last() =~= all.take(n));
            assert(all.take(n + 1).last() == m);
            let here: bool = match self.registry.lookup(&m.0) {
                Some(_) => true,
                None => false,
            };
            if !here && self.external_routing {
                self.outbound.push(m);
            } else {
                let _ = self.send(m.0, m.1);
            }
        }
        assert(all.take(all.len() as int) =~= all);
    }

    /// Starts and queues processes one after the other.
    fn spawn_all(&mut self, spawns: Vec<(B, Json)>)
        requires
            old(self).wf(),
        ensures
            final(self).wf(),
            exists|states: Seq<Option<B::State>>|
                states.len() == spawns@.len() && #[trigger] started_as(spawns@, states) && final(self)@
                    == spawned_all(old(self)@, spawns@, states),
    {
        let ghost s0 = self@;
        let ghost all = spawns@;
        let ghost mut states: Seq<Option<B::State>> = Seq::empty();
        assert(all.take(0) =~= Seq::<(B, Json)>::empty());
        for c in it: spawns
            invariant
                it.seq() == all,
                self.wf(),
                states.len() == it.index(),
                started_as(all.take(it.index()), states),
                self@ == spawned_all(s0, all.take(it.index()), states),
        {
            let ghost n = it.index();
            let ghost before = self@;
            let (behavior, args) = c;
            let ghost now = all.take(n + 1);
            assert(now.drop_last() =~= all.take(n));
            assert(now.last() == c);
            match self.registry.spawn(behavior, args) {
                Ok(pid) => {
                    let ghost st = choose|st: B::State| #[trigger]
                        process::fresh_process(pid, behavior, st) == self@.reg.procs[pid.0] && call_ensures(
                            B::init,
                            (&behavior, args),
                            Ok::<B::State, Reason>(st),
                        );
                    let ghost mid = self@;
                    self.enqueue(pid);
                    proof {
                        let next = states.push(Some(st));
                        assert(next.drop_last() =~= states);
                        assert(mid.reg.procs =~= before.reg.procs.insert(
                            pid.0,
                            process::fresh_process(pid, behavior, st),
                        ));
                        assert(self@ == spawned(before, behavior, Some(st)));
                        assert(started_as(now, next)) by {
                            assert forall|i: int| 0 <= i < now.len() implies #[trigger] start_ok(now[i], next[i]) by {
                                if i < n {
                                    assert(start_ok(all.take(n)[i], states[i]));
                                }
                            }
                        }
                        states = next;
                    }
                },
                Err(e) => {
                    proof {
                        let next = states.push(None);
                        assert(next.drop_last() =~= states);
                        assert(self@ == spawned(before, behavior, None));
                        assert(started_as(now, next)) by {
                            assert forall|i: int| 0 <= i < now.len() implies #[trigger] start_ok(now[i], next[i]) by {
                                if i < n {
                                    assert(start_ok(all.take(n)[i], states[i]));
                                } else {
                                    assert(call_ensures(B::init, (&behavior, args), Err::<B::State, Reason>(e)));
                                }
                            }
                        }
                        states = next;
                    }
                },
            }
        }
        assert(all.take(all.len() as int) =~= all);
    }

    /// Does what is left to do when the turn of `pid` is over.
    fn finish_turn(&mut self, pid: AgentPid, t: Turn<B>)
        requires
            old(self).wf(),
        ensures
            final(self).wf(),
            exists|states: Seq<Option<B::State>>|
                states.len() == t.spawns@.len() && #[trigger] started_as(t.spawns@, states)
                    && final(self)@ == finished(
                    old(self)@,
                    pid,
                    t.sends@,
                    t.spawns@,
                    states,
                    t.end,
                ) && finish_told(old(self)@, pid, t.sends@, t.spawns@, states, t.end),
    {
        let out: bool = match &t.end {
            TurnEnd::OutOfReductions => true,
            _ => false,
        };
        if out {
            self.enqueue(pid);
        }
        self.send_all(t.sends);
        self.spawn_all(t.spawns);
        match t.end {
            TurnEnd::Stopped(reason) => self.terminate_process(pid, reason),
            _ => {},
        }
    }

    /// Runs one turn. Tells whether there was one: not where no process is queued, and not
    /// where the next one is gone or cannot run, which then leaves the queue.
    pub fn tick(&mut self) -> (r: bool)
        requires
            old(self).wf(),
        ensures
            final(self).wf(),
            ticked(old(self)@, final(self)@, r),
    {
        let pid: AgentPid = match self.next_runnable() {
            Some(p) => p,
            None => {
                return false;
            },
        };
        let ghost s = self@;
        match self.registry.lookup(&pid) {
            Some(p) => {
                if p.status != ProcessStatus::Runnable {
                    return false;
                }
            },
            None => {
                return false;
            },
        }
        let ghost p0 = s.reg.procs[pid.0];
        match self.registry.lookup_mut(&pid) {
            Some(p) => {
                let t = run_turn(p);
                let ghost answers = choose|answers: Seq<Answer<B, B::State>>| #[trigger]
                    full_turn(p0, answers) && {
                        let v = turn(p0, answers);
                        &&& p@ == left_by(v)
                        &&& t.sends@ == v.sends
                        &&& t.spawns@ == v.spawns
                        &&& Some(t.end) == turn_over(v)
                    };
                let ghost v = turn(p0, answers);
                assert(self@ == with_process(s, pid, left_by(v)));
                let ghost spawns = t.spawns@;
                let ghost mid = self@;
                let ghost sends = t.sends@;
                let ghost end = t.end;
                self.finish_turn(pid, t);
                proof {
                    let states = choose|states: Seq<Option<B::State>>|
                        states.len() == spawns.len() && #[trigger] started_as(spawns, states)
                            && self@ == finished(mid, pid, sends, spawns, states, end)
                            && finish_told(mid, pid, sends, spawns, states, end);
                    assert(turn_of(p0, answers, states));
                    assert(self@ == after_turn(s, pid, answers, states));
                }
            },
            None => {},
        }
        true
    }

    /// Ends a process: its behavior is told, it leaves the registry with its names, and the
    /// processes linked to it get an exit message.
    pub fn terminate_process(&mut self, pid: AgentPid, reason: Reason)
        requires
            old(self).wf(),
        ensures
            final(self).wf(),
            final(self)@ == ended(old(self)@, pid, reason),
            told(old(self)@, pid, reason),
    {
        let ghost s0 = self@;
        match self.registry.remove(&pid) {
            Some(p) => {
                let mut p = p;
                let ghost links = p@.links;
                let mut msgs: Vec<(AgentPid, Message)> = Vec::new();
                let mut i: usize = 0;
                while i < p.links.len()
                    invariant
                        i <= p.links@.len(),
                        links == p.links@,
                        msgs@ == exit_messages(links.take(i as int), pid, reason),
                    decreases p.links@.len() - i,
                {
                    let ghost before = msgs@;
                    msgs.push(
                        (
                            p.links[i],
                            Message::System(
                                SystemMsg::Exit { from: pid.raw(), reason: reason.clone() },
                            ),
                        ),
                    );
                    i += 1;
                    assert(msgs@ =~= exit_messages(links.take(i as int), pid, reason));
                }
                assert(links.take(i as int) =~= links);
                p.terminate(reason);
                self.send_all(msgs);
            },
            None => {},
        }
    }
}

/// A list names every process once.
pub open spec fn names_each<B: AgentBehavior>(pids: Seq<AgentPid>, s: SchedV<B>) -> bool {
    &&& pids.no_duplicates()
    &&& forall|p: AgentPid| #[trigger] pids.contains(p) <==> s.reg.procs.dom().contains(p.0)
}

impl<B: AgentBehavior> AgentScheduler<B> {
    /// What every process looks like from outside.
    pub fn list_processes(&self) -> (r: Vec<ProcessSnapshot>)
        requires
            self.wf(),
        ensures
            exists|pids: Seq<AgentPid>| #[trigger]
                names_each(pids, self@) && pids.len() == r@.len() && forall|i: int|
                    0 <= i < r@.len() ==> observability::shows(
                        #[trigger] r@[i],
                        self@.reg.procs[pids[i].0],
                    ),
    {
        let pids: Vec<AgentPid> = self.registry.pids();
        let mut out: Vec<ProcessSnapshot> = Vec::new();
        let mut i: usize = 0;
        while i < pids.len()
            invariant
                i <= pids@.len(),
                self.wf(),
                names_each(pids@, self@),
                out@.len() == i,
                forall|j: int|
                    0 <= j < i ==> observability::shows(
                        #[trigger] out@[j],
                        self@.reg.procs[pids@[j].0],
                    ),
            decreases pids@.len() - i,
        {
            assert(pids@.contains(pids@[i as int]));
            if let Some(p) = self.registry.lookup(&pids[i]) {
                out.push(ProcessSnapshot::of(p));
            }
            i += 1;
        }
        out
    }
}

/// What the behavior of a new process answered fits what became of it.
pub open spec fn start_ok<B: AgentBehavior>(c: (B, Json), st: Option<B::State>) -> bool {
    match st {
        Some(s) => call_ensures(B::init, (&c.0, c.1), Ok::<B::State, Reason>(s)),
        None => exists|e: Reason| call_ensures(B::init, (&c.0, c.1), Err::<B::State, Reason>(e)),
    }
}

/// What the behaviors of new processes answered fits what became of them.
pub open spec fn started_as<B: AgentBehavior>(spawns: Seq<(B, Json)>, states: Seq<Option<B::State>>) -> bool {
    forall|i: int| 0 <= i < spawns.len() ==> #[trigger] start_ok(spawns[i], states[i])
}

/// The answers make up one whole turn, and the states are what its children started with.
pub open spec fn turn_of<B: AgentBehavior>(
    p: ProcV<B>,
    answers: Seq<Answer<B, B::State>>,
    states: Seq<Option<B::State>>,
) -> bool {
    &&& full_turn(p, answers)
    &&& states.len() == turn(p, answers).spawns.len()
    &&& started_as(turn(p, answers).spawns, states)
}

// ---------------------------------------------------------------------------
// What holds of every run
// ---------------------------------------------------------------------------
/// A queued process of high priority is always next.
pub proof fn law_high_first<B: AgentBehavior>(s: SchedV<B>)
    requires
        s.high.len() > 0,
    ensures
        picked_next(s).1 == Some(s.high[0]),
{
}

/// The scheduler after `n` picks in a row.
pub open spec fn after_picks<B: AgentBehavior>(s: SchedV<B>, n: nat) -> SchedV<B>
    decreases n,
{
    if n == 0 {
        s
    } else {
        after_picks(picked_next(s).0, (n - 1) as nat)
    }
}

/// Normal processes cannot starve low ones: with no high process queued, the first low
/// process is next after at most [`NORMAL_ADVANTAGE`] picks.
pub proof fn law_low_not_starved<B: AgentBehavior>(s: SchedV<B>)
    requires
        s.high.len() == 0,
        s.low.len() > 0,
    ensures
        exists|n: nat|
            n <= NORMAL_ADVANTAGE && (#[trigger] picked_next(after_picks(s, n))).1 == Some(s.low[0]),
{
    lemma_low_turn(s, if s.advantage >= 8 { 0 } else { (8 - s.advantage) as nat });
}

proof fn lemma_low_turn<B: AgentBehavior>(s: SchedV<B>, left: nat)
    requires
        s.high.len() == 0,
        s.low.len() > 0,
        s.advantage + left >= 8,
        left <= 8,
    ensures
        exists|n: nat| n <= left && (#[trigger] picked_next(after_picks(s, n))).1 == Some(s.low[0]),
    decreases left,
{
    if s.normal.len() == 0 || s.advantage >= 8 {
        assert(after_picks(s, 0) == s);
        assert(picked_next(after_picks(s, 0)).1 == Some(s.low[0]));
    } else {
        let t = picked_next(s).0;
        lemma_low_turn(t, (left - 1) as nat);
        let m = choose|m: nat|
            m <= left - 1 && (#[trigger] picked_next(after_picks(t, m))).1 == Some(t.low[0]);
        assert(after_picks(s, m + 1) == after_picks(t, m));
        assert(picked_next(after_picks(s, m + 1)).1 == Some(s.low[0]));
    }
}

/// Normal processes have their advantage: with no high process queued, the next picks after a low
/// process had its turn are normal ones, as many as [`NORMAL_ADVANTAGE`] says or as there are.
pub proof fn law_normal_ahead<B: AgentBehavior>(s: SchedV<B>, n: nat)
    requires
        s.high.len() == 0,
        s.advantage + n < NORMAL_ADVANTAGE,
        n < s.normal.len(),
    ensures
        picked_next(after_picks(s, n)).1 == Some(s.normal[n as int]),
    decreases n,
{
    if n > 0 {
        let t = picked_next(s).0;
        law_normal_ahead(t, (n - 1) as nat);
        assert(t.normal[n - 1] == s.normal[n as int]);
    }
}

/// A turn takes at most [`DEFAULT_REDUCTIONS`] messages, from the front of the mailbox and in
/// their order.
pub proof fn law_turn_bounded<B: AgentBehavior>(p: ProcV<B>, answers: Seq<Answer<B, B::State>>)
    requires
        full_turn(p, answers),
    ensures
        answers.len() <= DEFAULT_REDUCTIONS,
        answers.len() <= p.mailbox.len(),
        turn(p, answers).proc.mailbox == p.mailbox.skip(answers.len() as int),
        forall|k: int|
            0 <= k < answers.len() ==> #[trigger] turn(p, answers.take(k)).proc.mailbox[0]
                == p.mailbox[k],
{
    lemma_turn_counts(p, answers, answers.len());
    assert(answers.take(answers.len() as int) =~= answers);
    assert forall|k: int| 0 <= k < answers.len() implies #[trigger] turn(
        p,
        answers.take(k),
    ).proc.mailbox[0] == p.mailbox[k] by {
        lemma_turn_counts(p, answers, k as nat);
        assert(due(p, answers, k));
    }
}

proof fn lemma_turn_counts<B: AgentBehavior>(p: ProcV<B>, answers: Seq<Answer<B, B::State>>, n: nat)
    requires
        n <= answers.len(),
        forall|k: int| 0 <= k < answers.len() ==> #[trigger] due(p, answers, k),
    ensures
        n <= DEFAULT_REDUCTIONS,
        n <= p.mailbox.len(),
        turn(p, answers.take(n as int)).proc.reductions == DEFAULT_REDUCTIONS - n,
        turn(p, answers.take(n as int)).proc.mailbox == p.mailbox.skip(n as int),
    decreases n,
{
    if n == 0 {
        assert(p.mailbox.skip(0) =~= p.mailbox);
    } else {
        let m = (n - 1) as nat;
        lemma_turn_counts(p, answers, m);
        assert(due(p, answers, m as int));
        assert(answers.take(n as int).drop_last() =~= answers.take(m as int));
        assert(p.mailbox.skip(m as int).drop_first() =~= p.mailbox.skip(n as int));
    }
}

/// Delivering messages starts and ends no process, and takes no message away.
pub proof fn law_sending_keeps_processes<B: AgentBehavior>(
    s: SchedV<B>,
    msgs: Seq<(AgentPid, Message)>,
)
    ensures
        sent_all(s, msgs).reg.procs.dom() == s.reg.procs.dom(),
        forall|k: u64| #[trigger]
            s.reg.procs.dom().contains(k) ==> s.reg.procs[k].mailbox.is_prefix_of(
                sent_all(s, msgs).reg.procs[k].mailbox,
            ),
    decreases msgs.len(),
{
    if msgs.len() > 0 {
        law_sending_keeps_processes(s, msgs.drop_last());
        let t = sent_all(s, msgs.drop_last());
        assert(routed(t, msgs.last().0, msgs.last().1).reg.procs.dom() =~= t.reg.procs.dom());
    } else {
        assert forall|k: u64| #[trigger] s.reg.procs.dom().contains(k) implies s.reg.procs[k].mailbox.is_prefix_of(
            sent_all(s, msgs).reg.procs[k].mailbox,
        ) by {
            assert(s.reg.procs[k].mailbox =~= s.reg.procs[k].mailbox.subrange(
                0,
                s.reg.procs[k].mailbox.len() as int,
            ));
        }
    }
}

/// A process that has ended is gone, and no name stands for it any more.
pub proof fn law_ended_is_gone<B: AgentBehavior>(s: SchedV<B>, pid: AgentPid, reason: Reason)
    requires
        s.reg.procs.dom().contains(pid.0),
    ensures
        !ended(s, pid, reason).reg.procs.dom().contains(pid.0),
        forall|n: Seq<char>| #[trigger]
            ended(s, pid, reason).reg.names.dom().contains(n) ==> ended(s, pid, reason).reg.names[n]
                != pid,
{
    let t = SchedV { reg: registry::removed(s.reg, pid), ..s };
    let msgs = exit_messages(s.reg.procs[pid.0].links, pid, reason);
    law_sending_keeps_processes(t, msgs);
    lemma_sending_keeps_names(t, msgs);
}

proof fn lemma_sending_keeps_names<B: AgentBehavior>(s: SchedV<B>, msgs: Seq<(AgentPid, Message)>)
    ensures
        sent_all(s, msgs).reg.names == s.reg.names,
        sent_all(s, msgs).reg.next == s.reg.next,
    decreases msgs.len(),
{
    if msgs.len() > 0 {
        lemma_sending_keeps_names(s, msgs.drop_last());
    }
}

/// Where a process has ended, the others and the next id are as before.
pub proof fn lemma_ended_reg<B: AgentBehavior>(s: SchedV<B>, pid: AgentPid, reason: Reason)
    ensures
        ended(s, pid, reason).reg.next == s.reg.next,
        ended(s, pid, reason).reg.procs.dom() == s.reg.procs.dom().remove(pid.0),
        registry::below(s.reg) ==> registry::below(ended(s, pid, reason).reg),
{
    if s.reg.procs.dom().contains(pid.0) {
        let t = SchedV { reg: registry::removed(s.reg, pid), ..s };
        let msgs = exit_messages(s.reg.procs[pid.0].links, pid, reason);
        law_sending_keeps_processes(t, msgs);
        lemma_sending_keeps_names(t, msgs);
        assert(t.reg.procs.dom() =~= s.reg.procs.dom().remove(pid.0));
    } else {
        assert(s.reg.procs.dom() =~= s.reg.procs.dom().remove(pid.0));
    }
}

proof fn lemma_spawned_fresh<B: AgentBehavior>(
    s: SchedV<B>,
    spawns: Seq<(B, Json)>,
    states: Seq<Option<B::State>>,
)
    requires
        registry::below(s.reg),
        s.reg.next + spawns.len() <= u64::MAX,
    ensures
        registry::below(spawned_all(s, spawns, states).reg),
        spawned_all(s, spawns, states).reg.next == s.reg.next + spawns.len(),
        forall|k: u64| #[trigger]
            spawned_all(s, spawns, states).reg.procs.dom().contains(k)
                ==> s.reg.procs.dom().contains(k) || k >= s.reg.next,
    decreases spawns.len(),
{
    if spawns.len() > 0 {
        lemma_spawned_fresh(s, spawns.drop_last(), states.drop_last());
    }
}

proof fn lemma_spawns_counted<B: AgentBehavior>(p: ProcV<B>, answers: Seq<Answer<B, B::State>>)
    ensures
        turn(p, answers).spawns.len() <= answers.len(),
    decreases answers.len(),
{
    if answers.len() > 0 {
        lemma_spawns_counted(p, answers.drop_last());
    }
}

/// Ids are not given out twice: as long as there are enough of them, every process that a turn
/// starts has an id that no process had before, and the next id is still free afterwards.
pub proof fn law_turn_gives_new_ids<B: AgentBehavior>(s0: SchedV<B>, s1: SchedV<B>, worked: bool)
    requires
        ticked(s0, s1, worked),
        registry::below(s0.reg),
        s0.reg.next + DEFAULT_REDUCTIONS <= u64::MAX,
    ensures
        registry::below(s1.reg),
        s0.reg.next <= s1.reg.next <= s0.reg.next + DEFAULT_REDUCTIONS,
        forall|k: u64| #[trigger]
            s1.reg.procs.dom().contains(k) ==> s0.reg.procs.dom().contains(k) || k >= s0.reg.next,
{
    let (s, who) = picked_next(s0);
    if let Some(pid) = who {
        if s.reg.procs.dom().contains(pid.0) && s.reg.procs[pid.0].status == ProcessStatus::Runnable {
            let p = s.reg.procs[pid.0];
            let (answers, states) = choose|
                answers: Seq<Answer<B, B::State>>,
                states: Seq<Option<B::State>>,
            | #[trigger]
                turn_of(p, answers, states) && s1 == after_turn(s, pid, answers, states)
                    && turn_told(s, pid, answers, states);
            let t = turn(p, answers);
            law_turn_bounded(p, answers);
            lemma_spawns_counted(p, answers);
            let a = with_process(s, pid, left_by(t));
            assert(a.reg.procs.dom() =~= s.reg.procs.dom());
            let b = if turn_over(t)->0 is OutOfReductions {
                enqueued(a, pid)
            } else {
                a
            };
            law_sending_keeps_processes(b, t.sends);
            lemma_sending_keeps_names(b, t.sends);
            let c = sent_all(b, t.sends);
            lemma_spawned_fresh(c, t.spawns, states);
            let d = spawned_all(c, t.spawns, states);
            if let TurnEnd::Stopped(r) = turn_over(t)->0 {
                lemma_ended_reg(d, pid, r);
            }
        }
    }
}

/// The process stands in one of the queues.
pub open spec fn queued<B: AgentBehavior>(s: SchedV<B>, pid: AgentPid) -> bool {
    s.high.contains(pid) || s.normal.contains(pid) || s.low.contains(pid)
}

/// Every process that can run stands in a queue, but for `but`, which may not.
pub open spec fn none_lost_but<B: AgentBehavior>(s: SchedV<B>, but: Option<u64>) -> bool {
    forall|k: u64| #[trigger]
        s.reg.procs.dom().contains(k) && Some(k) != but && s.reg.procs[k].status
            == ProcessStatus::Runnable && s.reg.procs[k].state is Some ==> queued(s, AgentPid(k))
}

/// Every process that can run stands in a queue.
pub open spec fn none_lost<B: AgentBehavior>(s: SchedV<B>) -> bool {
    none_lost_but(s, None)
}

/// The queues of `t` hold all that those of `s` hold.
pub open spec fn queues_grow<B: AgentBehavior>(s: SchedV<B>, t: SchedV<B>) -> bool {
    forall|p: AgentPid| #[trigger] queued(s, p) ==> queued(t, p)
}

/// A process that is put into a queue is the last of the queue of its priority, and nobody leaves
/// a queue for it.
pub proof fn law_enqueued_last<B: AgentBehavior>(s: SchedV<B>, pid: AgentPid)
    requires
        s.reg.procs.dom().contains(pid.0),
    ensures
        queued(enqueued(s, pid), pid),
        queues_grow(s, enqueued(s, pid)),
        enqueued(s, pid).reg == s.reg,
        s.reg.procs[pid.0].priority == Priority::High ==> enqueued(s, pid).high == s.high.push(pid)
            && enqueued(s, pid).normal == s.normal && enqueued(s, pid).low == s.low,
        s.reg.procs[pid.0].priority == Priority::Normal ==> enqueued(s, pid).normal == s.normal.push(
            pid,
        ) && enqueued(s, pid).high == s.high && enqueued(s, pid).low == s.low,
        s.reg.procs[pid.0].priority == Priority::Low ==> enqueued(s, pid).low == s.low.push(pid)
            && enqueued(s, pid).high == s.high && enqueued(s, pid).normal == s.normal,
{
    let t = enqueued(s, pid);
    lemma_push_contains(s.high, pid);
    lemma_push_contains(s.normal, pid);
    lemma_push_contains(s.low, pid);
}

proof fn lemma_push_contains(q: Seq<AgentPid>, pid: AgentPid)
    ensures
        q.push(pid).contains(pid),
        forall|p: AgentPid| #[trigger] q.contains(p) ==> q.push(pid).contains(p),
        forall|p: AgentPid| #[trigger] q.push(pid).contains(p) ==> q.contains(p) || p == pid,
{
    assert(q.push(pid)[q.len() as int] == pid);
    assert forall|p: AgentPid| #[trigger] q.contains(p) implies q.push(pid).contains(p) by {
        let i = choose|i: int| 0 <= i < q.len() && q[i] == p;
        assert(q.push(pid)[i] == p);
    }
}

/// A message to a process that is here is the last of its mailbox. The others do not change, and
/// one that waited can run and is queued.
pub proof fn law_sent_arrives<B: AgentBehavior>(s: SchedV<B>, to: AgentPid, msg: Message)
    requires
        s.reg.procs.dom().contains(to.0),
    ensures
        sent(s, to, msg).reg.procs.dom() == s.reg.procs.dom(),
        sent(s, to, msg).reg.procs[to.0].mailbox == s.reg.procs[to.0].mailbox.push(msg),
        sent(s, to, msg).reg.procs[to.0].state == s.reg.procs[to.0].state,
        forall|k: u64| #[trigger]
            s.reg.procs.dom().contains(k) && k != to.0 ==> sent(s, to, msg).reg.procs[k]
                == s.reg.procs[k],
        s.reg.procs[to.0].status == ProcessStatus::Waiting ==> sent(s, to, msg).reg.procs[to.0].status
            == ProcessStatus::Runnable && queued(sent(s, to, msg), to),
        s.reg.procs[to.0].status != ProcessStatus::Waiting ==> sent(s, to, msg).reg.procs[to.0].status
            == s.reg.procs[to.0].status,
        sent(s, to, msg).outbound == s.outbound,
        queues_grow(s, sent(s, to, msg)),
{
    let p = s.reg.procs[to.0];
    let t = with_process(s, to, process::delivered(p, msg));
    assert(t.reg.procs.dom() =~= s.reg.procs.dom());
    law_enqueued_last(t, to);
    assert(queues_grow(s, t));
}

/// A message that a process sends to one that is not here goes to whoever delivers elsewhere, if
/// there is such a one, and is lost otherwise; it changes nothing here.
pub proof fn law_sent_elsewhere<B: AgentBehavior>(s: SchedV<B>, to: AgentPid, msg: Message)
    requires
        !s.reg.procs.dom().contains(to.0),
    ensures
        s.external ==> routed(s, to, msg).outbound == s.outbound.push((to, msg)),
        !s.external ==> routed(s, to, msg).outbound == s.outbound,
        routed(s, to, msg).reg == s.reg,
        routed(s, to, msg).high == s.high,
        routed(s, to, msg).normal == s.normal,
        routed(s, to, msg).low == s.low,
{
}

proof fn lemma_routed_lost<B: AgentBehavior>(s: SchedV<B>, to: AgentPid, msg: Message, but: Option<u64>)
    requires
        none_lost_but(s, but),
    ensures
        none_lost_but(routed(s, to, msg), but),
        queues_grow(s, routed(s, to, msg)),
        routed(s, to, msg).reg.procs.dom() == s.reg.procs.dom(),
        forall|k: u64| #[trigger]
            s.reg.procs.dom().contains(k) ==> routed(s, to, msg).reg.procs[k].state
                == s.reg.procs[k].state && s.reg.procs[k].mailbox.is_prefix_of(
                routed(s, to, msg).reg.procs[k].mailbox,
            ),
{
    let t = routed(s, to, msg);
    if s.reg.procs.dom().contains(to.0) {
        law_sent_arrives(s, to, msg);
    }
    assert forall|k: u64| #[trigger]
        t.reg.procs.dom().contains(k) && Some(k) != but && t.reg.procs[k].status
            == ProcessStatus::Runnable && t.reg.procs[k].state is Some implies queued(
        t,
        AgentPid(k),
    ) by {
        if k != to.0 || s.reg.procs[k].status == ProcessStatus::Runnable {
            assert(s.reg.procs.dom().contains(k));
            assert(queued(s, AgentPid(k)));
        }
    }
    assert forall|k: u64| #[trigger] s.reg.procs.dom().contains(k) implies s.reg.procs[k].mailbox.is_prefix_of(
        t.reg.procs[k].mailbox,
    ) by {
        let m = t.reg.procs[k].mailbox;
        let n = s.reg.procs[k].mailbox;
        assert(m == n || m == n.push(msg));
        assert(m.subrange(0, n.len() as int) =~= n);
    }
}

proof fn lemma_sent_all_lost<B: AgentBehavior>(
    s: SchedV<B>,
    msgs: Seq<(AgentPid, Message)>,
    but: Option<u64>,
)
    requires
        none_lost_but(s, but),
    ensures
        none_lost_but(sent_all(s, msgs), but),
        queues_grow(s, sent_all(s, msgs)),
        sent_all(s, msgs).reg.procs.dom() == s.reg.procs.dom(),
        forall|k: u64| #[trigger]
            s.reg.procs.dom().contains(k) ==> sent_all(s, msgs).reg.procs[k].state
                == s.reg.procs[k].state,
    decreases msgs.len(),
{
    if msgs.len() > 0 {
        let t = sent_all(s, msgs.drop_last());
        lemma_sent_all_lost(s, msgs.drop_last(), but);
        lemma_routed_lost(t, msgs.last().0, msgs.last().1, but);
    }
}

/// A process that is started can run, has the state that its behavior gave it and no messages, and
/// stands in a queue.
pub proof fn law_spawned_can_run<B: AgentBehavior>(s: SchedV<B>, behavior: B, st: B::State)
    ensures
        ({
            let t = spawned(s, behavior, Some(st));
            let pid = AgentPid(s.reg.next);
            &&& t.reg.procs.dom() == s.reg.procs.dom().insert(pid.0)
            &&& t.reg.procs[pid.0].pid == pid
            &&& t.reg.procs[pid.0].behavior == behavior
            &&& t.reg.procs[pid.0].state == Some(st)
            &&& t.reg.procs[pid.0].status == ProcessStatus::Runnable
            &&& t.reg.procs[pid.0].mailbox.len() == 0
            &&& queued(t, pid)
            &&& queues_grow(s, t)
            &&& forall|k: u64| #[trigger]
                s.reg.procs.dom().contains(k) && k != pid.0 ==> t.reg.procs[k] == s.reg.procs[k]
            &&& s.reg.next < u64::MAX ==> t.reg.next == s.reg.next + 1
        }),
        spawned(s, behavior, None).reg.procs == s.reg.procs,
        s.reg.next < u64::MAX ==> spawned(s, behavior, None).reg.next == s.reg.next + 1,
{
    let pid = AgentPid(s.reg.next);
    let t = SchedV { reg: RegV { next: registry::pid_after(s.reg.next), ..s.reg }, ..s };
    let u = with_process(t, pid, process::fresh_process(pid, behavior, st));
    assert(u.reg.procs.dom() =~= s.reg.procs.dom().insert(pid.0));
    law_enqueued_last(u, pid);
    assert(queues_grow(s, u));
}

proof fn lemma_spawned_all_lost<B: AgentBehavior>(
    s: SchedV<B>,
    spawns: Seq<(B, Json)>,
    states: Seq<Option<B::State>>,
    but: Option<u64>,
)
    requires
        none_lost_but(s, but),
    ensures
        none_lost_but(spawned_all(s, spawns, states), but),
        queues_grow(s, spawned_all(s, spawns, states)),
    decreases spawns.len(),
{
    if spawns.len() > 0 {
        let t = spawned_all(s, spawns.drop_last(), states.drop_last());
        lemma_spawned_all_lost(s, spawns.drop_last(), states.drop_last(), but);
        let b = spawns.last().0;
        let u = spawned(t, b, states.last());
        if let Some(st) = states.last() {
            law_spawned_can_run(t, b, st);
        }
        assert forall|k: u64| #[trigger]
            u.reg.procs.dom().contains(k) && Some(k) != but && u.reg.procs[k].status
                == ProcessStatus::Runnable && u.reg.procs[k].state is Some implies queued(
            u,
            AgentPid(k),
        ) by {
            if states.last() is None || k != t.reg.next {
                assert(t.reg.procs.dom().contains(k));
                assert(queued(t, AgentPid(k)));
            }
        }
        assert(queues_grow(t, u));
    }
}

proof fn lemma_ended_lost<B: AgentBehavior>(s: SchedV<B>, pid: AgentPid, reason: Reason)
    requires
        none_lost_but(s, Some(pid.0)),
        s.reg.procs.dom().contains(pid.0),
    ensures
        none_lost(ended(s, pid, reason)),
{
    let t = SchedV { reg: registry::removed(s.reg, pid), ..s };
    assert forall|k: u64| #[trigger]
        t.reg.procs.dom().contains(k) && t.reg.procs[k].status == ProcessStatus::Runnable
            && t.reg.procs[k].state is Some implies queued(t, AgentPid(k)) by {
        assert(s.reg.procs.dom().contains(k));
        assert(queued(s, AgentPid(k)));
    }
    lemma_sent_all_lost(t, exit_messages(s.reg.procs[pid.0].links, pid, reason), None);
}

proof fn lemma_turn_keeps<B: AgentBehavior>(p: ProcV<B>, answers: Seq<Answer<B, B::State>>, n: nat)
    requires
        n <= answers.len(),
        forall|k: int| 0 <= k < answers.len() ==> #[trigger] due(p, answers, k),
    ensures
        ({
            let t = turn(p, answers.take(n as int));
            &&& t.end is None || t.end->0 is Stopped || t.end->0 is WaitingForIo
            &&& t.end is None || t.end->0 is Stopped ==> t.proc.status == p.status
            &&& t.end is Some && t.end->0 is WaitingForIo ==> t.proc.status == ProcessStatus::Waiting
            &&& p.state is Some ==> t.proc.state is Some
            &&& t.proc.priority == p.priority && t.proc.links == p.links && t.proc.behavior
                == p.behavior && t.proc.pid == p.pid
        }),
    decreases n,
{
    if n > 0 {
        let m = (n - 1) as nat;
        lemma_turn_keeps(p, answers, m);
        assert(due(p, answers, m as int));
        assert(answers.take(n as int).drop_last() =~= answers.take(m as int));
    } else {
        assert(answers.take(0) =~= Seq::empty());
    }
}

proof fn lemma_picked<B: AgentBehavior>(s0: SchedV<B>)
    ensures
        ({
            let (s, who) = picked_next(s0);
            &&& s.reg == s0.reg && s.outbound == s0.outbound && s.external == s0.external
            &&& forall|p: AgentPid| #[trigger] queued(s0, p) ==> queued(s, p) || who == Some(p)
            &&& forall|p: AgentPid| #[trigger] queued(s, p) ==> queued(s0, p)
            &&& who matches Some(p) ==> queued(s0, p)
            &&& who is None ==> s == s0 && forall|p: AgentPid| !#[trigger] queued(s0, p)
        }),
{
    if s0.high.len() > 0 {
        lemma_rest_contains(s0.high);
    }
    if s0.normal.len() > 0 {
        lemma_rest_contains(s0.normal);
    }
    if s0.low.len() > 0 {
        lemma_rest_contains(s0.low);
    }
}

proof fn lemma_rest_contains(q: Seq<AgentPid>)
    requires
        q.len() > 0,
    ensures
        q.contains(q[0]),
        forall|p: AgentPid| #[trigger] q.contains(p) ==> q.drop_first().contains(p) || p == q[0],
        forall|p: AgentPid| #[trigger] q.drop_first().contains(p) ==> q.contains(p),
{
    assert forall|p: AgentPid| #[trigger] q.contains(p) implies q.drop_first().contains(p) || p == q[0] by {
        let i = choose|i: int| 0 <= i < q.len() && q[i] == p;
        if i > 0 {
            assert(q.drop_first()[i - 1] == p);
        }
    }
    assert forall|p: AgentPid| #[trigger] q.drop_first().contains(p) implies q.contains(p) by {
        let i = choose|i: int| 0 <= i < q.drop_first().len() && q.drop_first()[i] == p;
        assert(q[i + 1] == p);
    }
}

/// No process is lost: where every process that can run stands in a queue, this is so after every
/// turn. In particular one that has used up its reductions and has messages left gets another turn.
pub proof fn law_no_process_lost<B: AgentBehavior>(s0: SchedV<B>, s1: SchedV<B>, worked: bool)
    requires
        ticked(s0, s1, worked),
        none_lost(s0),
    ensures
        none_lost(s1),
{
    let (s, who) = picked_next(s0);
    lemma_picked(s0);
    if let Some(pid) = who {
        let b = Some(pid.0);
        assert forall|k: u64| #[trigger]
            s.reg.procs.dom().contains(k) && Some(k) != b && s.reg.procs[k].status
                == ProcessStatus::Runnable && s.reg.procs[k].state is Some implies queued(
            s,
            AgentPid(k),
        ) by {
            assert(s0.reg.procs.dom().contains(k));
            assert(queued(s0, AgentPid(k)));
        }
        if s.reg.procs.dom().contains(pid.0) && s.reg.procs[pid.0].status == ProcessStatus::Runnable {
            let p = s.reg.procs[pid.0];
            let (answers, states) = choose|
                answers: Seq<Answer<B, B::State>>,
                states: Seq<Option<B::State>>,
            | #[trigger]
                turn_of(p, answers, states) && s1 == after_turn(s, pid, answers, states)
                    && turn_told(s, pid, answers, states);
            let t = turn(p, answers);
            assert(answers.take(answers.len() as int) =~= answers);
            lemma_turn_keeps(p, answers, answers.len());
            let a = with_process(s, pid, left_by(t));
            assert(a.reg.procs.dom() =~= s.reg.procs.dom());
            assert forall|k: u64| #[trigger]
                a.reg.procs.dom().contains(k) && Some(k) != b && a.reg.procs[k].status
                    == ProcessStatus::Runnable && a.reg.procs[k].state is Some implies queued(
                a,
                AgentPid(k),
            ) by {
                assert(s.reg.procs.dom().contains(k));
                assert(queued(s, AgentPid(k)));
            }
            let end = turn_over(t)->0;
            if let TurnEnd::Stopped(r) = end {
                lemma_sent_all_lost(a, t.sends, b);
                let c = sent_all(a, t.sends);
                lemma_spawned_all_lost(c, t.spawns, states, b);
                let d = spawned_all(c, t.spawns, states);
                lemma_spawned_keeps(c, t.spawns, states);
                lemma_ended_lost(d, pid, r);
            } else {
                let e = if end is OutOfReductions {
                    enqueued(a, pid)
                } else {
                    a
                };
                law_enqueued_last(a, pid);
                assert forall|k: u64| #[trigger]
                    e.reg.procs.dom().contains(k) && e.reg.procs[k].status
                        == ProcessStatus::Runnable && e.reg.procs[k].state is Some implies queued(
                    e,
                    AgentPid(k),
                ) by {
                    if k != pid.0 {
                        assert(queued(a, AgentPid(k)));
                    }
                }
                lemma_sent_all_lost(e, t.sends, None);
                lemma_spawned_all_lost(sent_all(e, t.sends), t.spawns, states, None);
            }
        }
    }
}

proof fn lemma_spawned_keeps<B: AgentBehavior>(
    s: SchedV<B>,
    spawns: Seq<(B, Json)>,
    states: Seq<Option<B::State>>,
)
    ensures
        forall|k: u64| #[trigger]
            s.reg.procs.dom().contains(k) ==> spawned_all(s, spawns, states).reg.procs.dom().contains(
                k,
            ),
    decreases spawns.len(),
{
    if spawns.len() > 0 {
        lemma_spawned_keeps(s, spawns.drop_last(), states.drop_last());
    }
}

/// Behaviors that only take messages in: to each they answer that they go on.
pub open spec fn only_continue<B: AgentBehavior>() -> bool {
    forall|b: B, msg: Message, st: B::State, a: Answer<B, B::State>| #[trigger]
        answered(b, msg, st, a) ==> a.0 is Continue
}

/// Every process has a state, and one with messages can run.
pub open spec fn all_awake<B: AgentBehavior>(s: SchedV<B>) -> bool {
    forall|k: u64| #[trigger]
        s.reg.procs.dom().contains(k) ==> s.reg.procs[k].state is Some && (
        s.reg.procs[k].mailbox.len() > 0 ==> s.reg.procs[k].status == ProcessStatus::Runnable)
}

/// How many places of the queues are taken.
pub open spec fn places<B: AgentBehavior>(s: SchedV<B>) -> nat {
    s.high.len() + s.normal.len() + s.low.len()
}

proof fn lemma_continued<B: AgentBehavior>(p: ProcV<B>, answers: Seq<Answer<B, B::State>>)
    requires
        full_turn(p, answers),
        p.state is Some,
        only_continue::<B>(),
    ensures
        ({
            let t = turn(p, answers);
            let n = if p.mailbox.len() < 200 {
                p.mailbox.len()
            } else {
                200
            };
            &&& answers.len() == n
            &&& t.sends.len() == 0 && t.spawns.len() == 0 && t.end is None
            &&& t.proc.mailbox == p.mailbox.skip(n as int)
            &&& turn_over(t) == if p.mailbox.len() < 200 {
                Some(TurnEnd::Drained)
            } else {
                Some(TurnEnd::OutOfReductions)
            }
        }),
{
    law_turn_bounded(p, answers);
    lemma_only_continued(p, answers, answers.len());
    lemma_turn_keeps(p, answers, answers.len());
    lemma_turn_counts(p, answers, answers.len());
    assert(answers.take(answers.len() as int) =~= answers);
}

proof fn lemma_only_continued<B: AgentBehavior>(
    p: ProcV<B>,
    answers: Seq<Answer<B, B::State>>,
    n: nat,
)
    requires
        n <= answers.len(),
        forall|k: int| 0 <= k < answers.len() ==> #[trigger] due(p, answers, k),
        only_continue::<B>(),
    ensures
        ({
            let t = turn(p, answers.take(n as int));
            t.sends.len() == 0 && t.spawns.len() == 0 && t.end is None
        }),
    decreases n,
{
    if n > 0 {
        let m = (n - 1) as nat;
        lemma_only_continued(p, answers, m);
        assert(due(p, answers, m as int));
        assert(answers.take(n as int).drop_last() =~= answers.take(m as int));
    } else {
        assert(answers.take(0) =~= Seq::empty());
    }
}

/// A turn of a process whose behavior only goes on takes the first 200 messages, or all there are,
/// and touches nobody else. Afterwards the process stands in a queue again where it has used up its
/// reductions, and waits otherwise.
pub proof fn law_turn_takes_messages<B: AgentBehavior>(s0: SchedV<B>, s1: SchedV<B>, pid: AgentPid)
    requires
        ticked(s0, s1, true),
        only_continue::<B>(),
        picked_next(s0).1 == Some(pid),
        s0.reg.procs.dom().contains(pid.0),
        s0.reg.procs[pid.0].state is Some,
    ensures
        ({
            let m = s0.reg.procs[pid.0].mailbox;
            let q = s1.reg.procs[pid.0];
            &&& s1.reg.procs.dom() == s0.reg.procs.dom()
            &&& forall|k: u64| #[trigger]
                s0.reg.procs.dom().contains(k) && k != pid.0 ==> s1.reg.procs[k] == s0.reg.procs[k]
            &&& q.state is Some
            &&& m.len() < 200 ==> q.mailbox.len() == 0 && q.status == ProcessStatus::Waiting
                && places(s1) == places(s0) - 1
            &&& m.len() >= 200 ==> q.mailbox == m.skip(200) && q.status == ProcessStatus::Runnable
                && queued(s1, pid) && places(s1) == places(s0)
            &&& s1.outbound == s0.outbound
        }),
{
    let s = picked_next(s0).0;
    lemma_picked(s0);
    let p = s.reg.procs[pid.0];
    let (answers, states) = choose|
        answers: Seq<Answer<B, B::State>>,
        states: Seq<Option<B::State>>,
    | #[trigger]
        turn_of(p, answers, states) && s1 == after_turn(s, pid, answers, states) && turn_told(
            s,
            pid,
            answers,
            states,
        );
    let t = turn(p, answers);
    lemma_continued(p, answers);
    lemma_turn_keeps(p, answers, answers.len());
    assert(answers.take(answers.len() as int) =~= answers);
    let a = with_process(s, pid, left_by(t));
    assert(a.reg.procs.dom() =~= s.reg.procs.dom());
    law_enqueued_last(a, pid);
    if p.mailbox.len() < 200 {
        assert(p.mailbox.skip(p.mailbox.len() as int).len() == 0);
    }
}

/// The messages of the processes with ids below `n`, all together.
pub open spec fn backlog<B: AgentBehavior>(s: SchedV<B>, n: nat) -> nat
    decreases n,
{
    if n == 0 {
        0
    } else {
        backlog(s, (n - 1) as nat) + if s.reg.procs.dom().contains((n - 1) as u64) {
            s.reg.procs[(n - 1) as u64].mailbox.len()
        } else {
            0
        }
    }
}

/// How much is left to do: the places in the queues and the messages in the mailboxes.
pub open spec fn work_left<B: AgentBehavior>(s: SchedV<B>) -> nat {
    places(s) + backlog(s, 0x1_0000_0000_0000_0000)
}

proof fn lemma_backlog<B: AgentBehavior>(s0: SchedV<B>, s1: SchedV<B>, k: u64, d: int, n: nat)
    requires
        s1.reg.procs.dom() == s0.reg.procs.dom(),
        s0.reg.procs.dom().contains(k),
        forall|j: u64| #[trigger]
            s0.reg.procs.dom().contains(j) && j != k ==> s1.reg.procs[j] == s0.reg.procs[j],
        s0.reg.procs[k].mailbox.len() == s1.reg.procs[k].mailbox.len() + d,
        n <= 0x1_0000_0000_0000_0000,
    ensures
        backlog(s0, n) == backlog(s1, n) + if k < n {
            d
        } else {
            0
        },
    decreases n,
{
    if n > 0 {
        lemma_backlog(s0, s1, k, d, (n - 1) as nat);
        let j = (n - 1) as u64;
        assert(j as nat == n - 1);
    }
}

/// Turns come to an end: with behaviors that only go on, every turn leaves less to do, as long as
/// anybody stands in a queue.
pub proof fn law_turns_end<B: AgentBehavior>(s0: SchedV<B>, s1: SchedV<B>, worked: bool)
    requires
        ticked(s0, s1, worked),
        only_continue::<B>(),
        all_awake(s0),
        places(s0) > 0,
    ensures
        work_left(s1) < work_left(s0),
{
    lemma_picked(s0);
    let (s, who) = picked_next(s0);
    let pid = who->0;
    if worked {
        law_turn_takes_messages(s0, s1, pid);
        let m = s0.reg.procs[pid.0].mailbox;
        let q = s1.reg.procs[pid.0].mailbox;
        lemma_backlog(s0, s1, pid.0, m.len() - q.len(), 0x1_0000_0000_0000_0000);
    } else {
        lemma_same_backlog(s0, s1, 0x1_0000_0000_0000_0000);
    }
}

proof fn lemma_same_backlog<B: AgentBehavior>(s0: SchedV<B>, s1: SchedV<B>, n: nat)
    requires
        s1.reg.procs == s0.reg.procs,
    ensures
        backlog(s0, n) == backlog(s1, n),
    decreases n,
{
    if n > 0 {
        lemma_same_backlog(s0, s1, (n - 1) as nat);
    }
}

/// Every message is taken: with behaviors that only go on, turns one after the other until nobody
/// stands in a queue leave every mailbox empty.
pub proof fn law_turns_empty_mailboxes<B: AgentBehavior>(runs: Seq<SchedV<B>>, worked: Seq<bool>)
    requires
        runs.len() > 0,
        worked.len() == runs.len(),
        only_continue::<B>(),
        all_awake(runs[0]),
        none_lost(runs[0]),
        forall|i: int| 0 <= i < runs.len() - 1 ==> #[trigger] ticked(runs[i], runs[i + 1], worked[i]),
        places(runs.last()) == 0,
    ensures
        forall|k: u64| #[trigger]
            runs.last().reg.procs.dom().contains(k) ==> runs.last().reg.procs[k].mailbox.len() == 0,
{
    lemma_runs_awake(runs, worked, (runs.len() - 1) as nat);
    let s = runs.last();
    assert forall|k: u64| #[trigger] s.reg.procs.dom().contains(k) implies s.reg.procs[k].mailbox.len() == 0 by {
        if s.reg.procs[k].mailbox.len() > 0 {
            assert(queued(s, AgentPid(k)));
        }
    }
}

proof fn lemma_runs_awake<B: AgentBehavior>(runs: Seq<SchedV<B>>, worked: Seq<bool>, n: nat)
    requires
        n < runs.len(),
        only_continue::<B>(),
        all_awake(runs[0]),
        none_lost(runs[0]),
        forall|i: int| 0 <= i < runs.len() - 1 ==> #[trigger] ticked(runs[i], runs[i + 1], worked[i]),
    ensures
        all_awake(runs[n as int]),
        none_lost(runs[n as int]),
    decreases n,
{
    if n > 0 {
        let m = n - 1;
        lemma_runs_awake(runs, worked, m as nat);
        let s0 = runs[m];
        let s1 = runs[m + 1];
        assert(ticked(s0, s1, worked[m]));
        law_no_process_lost(s0, s1, worked[m]);
        lemma_picked(s0);
        if worked[m] {
            let pid = picked_next(s0).1->0;
            law_turn_takes_messages(s0, s1, pid);
            assert forall|k: u64| #[trigger] s1.reg.procs.dom().contains(k) implies s1.reg.procs[k].state is Some
                && (s1.reg.procs[k].mailbox.len() > 0 ==> s1.reg.procs[k].status
                == ProcessStatus::Runnable) by {
                assert(s0.reg.procs.dom().contains(k));
            }
        }
    }
}

/// Whoever is linked to a process that ends learns it, with the reason, in its mailbox; what all
/// others have in theirs stays the same.
pub proof fn law_linked_are_told<B: AgentBehavior>(
    s: SchedV<B>,
    pid: AgentPid,
    reason: Reason,
    to: AgentPid,
)
    requires
        s.reg.procs.dom().contains(pid.0),
        s.reg.procs.dom().contains(to.0),
        to.0 != pid.0,
    ensures
        ({
            let q = ended(s, pid, reason).reg.procs[to.0].mailbox;
            let m = s.reg.procs[to.0].mailbox;
            &&& ended(s, pid, reason).reg.procs.dom().contains(to.0)
            &&& s.reg.procs[pid.0].links.contains(to) ==> q.len() > m.len() && q.last()
                == Message::System(SystemMsg::Exit { from: pid.0, reason }) && q.take(m.len() as int) == m
            &&& !s.reg.procs[pid.0].links.contains(to) ==> q == m
        }),
{
    let t = SchedV { reg: registry::removed(s.reg, pid), ..s };
    lemma_exits(t, s.reg.procs[pid.0].links, pid, reason, to);
    let m = s.reg.procs[to.0].mailbox;
    assert(m.take(m.len() as int) =~= m);
}

proof fn lemma_exits<B: AgentBehavior>(
    s: SchedV<B>,
    links: Seq<AgentPid>,
    pid: AgentPid,
    reason: Reason,
    to: AgentPid,
)
    requires
        s.reg.procs.dom().contains(to.0),
    ensures
        ({
            let u = sent_all(s, exit_messages(links, pid, reason));
            let q = u.reg.procs[to.0].mailbox;
            let m = s.reg.procs[to.0].mailbox;
            &&& u.reg.procs.dom() == s.reg.procs.dom()
            &&& m.len() <= q.len() && q.take(m.len() as int) == m
            &&& links.contains(to) ==> q.len() > m.len() && q.last() == Message::System(
                SystemMsg::Exit { from: pid.0, reason },
            )
            &&& !links.contains(to) ==> q == m
        }),
    decreases links.len(),
{
    let m = s.reg.procs[to.0].mailbox;
    let msgs = exit_messages(links, pid, reason);
    if links.len() > 0 {
        let rest = links.drop_last();
        lemma_exits(s, rest, pid, reason, to);
        assert(msgs.drop_last() =~= exit_messages(rest, pid, reason));
        let u = sent_all(s, msgs.drop_last());
        let l = links.last();
        if u.reg.procs.dom().contains(l.0) {
            law_sent_arrives(u, l, msgs.last().1);
        }
        let a = u.reg.procs[to.0].mailbox;
        let q = sent_all(s, msgs).reg.procs[to.0].mailbox;
        if links.contains(to) {
            let i = choose|i: int| 0 <= i < links.len() && links[i] == to;
            if l != to {
                assert(rest[i] == to);
            }
        } else {
            assert(l != to) by {
                assert(links[links.len() - 1] == l);
            }
            assert forall|i: int| 0 <= i < rest.len() implies rest[i] != to by {
                assert(links[i] == rest[i]);
            }
        }
        if l == to {
            assert(q == a.push(msgs.last().1));
            assert(q.take(m.len() as int) =~= a.take(m.len() as int));
        }
    } else {
        assert(m.take(m.len() as int) =~= m);
    }
}

/// The error for a message to an unknown process.
pub open spec fn not_found_text(pid: AgentPid) -> Seq<char> {
    "Process AgentPid("@ + crate::util::text::decimal(pid.0 as nat) + ") not found"@
}

fn not_found(pid: AgentPid) -> (r: String)
    ensures
        r@ == not_found_text(pid),
{
    let n: String = crate::util::text::u64_to_text(pid.0);
    crate::util::text::concat3("Process AgentPid(", n.as_str(), ") not found")
}

/// A process that has ended is gone, and so is every name of it; all others and their names are
/// still there.
pub proof fn law_others_stay<B: AgentBehavior>(s: SchedV<B>, pid: AgentPid, reason: Reason)
    ensures
        ended(s, pid, reason).reg.procs.dom() =~= s.reg.procs.dom().remove(pid.0),
        s.reg.procs.dom().contains(pid.0) ==> forall|n: Seq<char>| #[trigger]
            ended(s, pid, reason).reg.names.dom().contains(n) <==> s.reg.names.dom().contains(n)
                && s.reg.names[n] != pid,
{
    if s.reg.procs.dom().contains(pid.0) {
        let t = SchedV { reg: registry::removed(s.reg, pid), ..s };
        let msgs = exit_messages(s.reg.procs[pid.0].links, pid, reason);
        law_sending_keeps_processes(t, msgs);
        lemma_sending_keeps_names(t, msgs);
    }
}

} // verus!
