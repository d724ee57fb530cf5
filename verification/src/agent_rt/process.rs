//! A running agent process: its mailbox, its state and its scheduling data.
use std::collections::VecDeque;
use vstd::prelude::*;
use crate::agent_rt::types::{Action, AgentBehavior, AgentPid, Message, MonitorRef, PidSource, Reason};
use crate::json::Json;

verus! {

/// Where a process stands with the scheduler.
#[derive(Debug, Clone, Copy, PartialEq, Eq, Structural)]
pub enum ProcessStatus {
    Runnable,
    Waiting,
    Suspended,
    Exiting,
}

/// How urgent a process is.
#[derive(Debug, Clone, Copy, PartialEq, Eq, Structural)]
pub enum Priority {
    High,
    Normal,
    Low,
}

impl Default for Priority {
    fn default() -> (r: Self)
        ensures
            r == Priority::Normal,
    {
        Priority::Normal
    }
}

/// A running agent process.
pub struct AgentProcess<B: AgentBehavior> {
    pub pid: AgentPid,
    pub behavior: B,
    pub state: Option<B::State>,
    pub mailbox: VecDeque<Message>,
    pub reductions: u32,
    pub status: ProcessStatus,
    pub priority: Priority,
    pub links: Vec<AgentPid>,
    pub monitors: Vec<(MonitorRef, AgentPid)>,
    pub monitored_by: Vec<(MonitorRef, AgentPid)>,
    pub supervisor: Option<AgentPid>,
    pub trap_exit: bool,
}

/// What a process is.
pub struct ProcV<B: AgentBehavior> {
    pub pid: AgentPid,
    pub behavior: B,
    pub state: Option<B::State>,
    pub mailbox: Seq<Message>,
    pub reductions: u32,
    pub status: ProcessStatus,
    pub priority: Priority,
    pub links: Seq<AgentPid>,
    pub monitors: Seq<(MonitorRef, AgentPid)>,
    pub monitored_by: Seq<(MonitorRef, AgentPid)>,
    pub supervisor: Option<AgentPid>,
    pub trap_exit: bool,
}

impl<B: AgentBehavior> View for AgentProcess<B> {
    type V = ProcV<B>;

    open spec fn view(&self) -> ProcV<B> {
        ProcV {
            pid: self.pid,
            behavior: self.behavior,
            state: self.state,
            mailbox: self.mailbox@,
            reductions: self.reductions,
            status: self.status,
            priority: self.priority,
            links: self.links@,
            monitors: self.monitors@,
            monitored_by: self.monitored_by@,
            supervisor: self.supervisor,
            trap_exit: self.trap_exit,
        }
    }
}

/// A process that has just started.
pub open spec fn fresh_process<B: AgentBehavior>(
    pid: AgentPid,
    behavior: B,
    state: B::State,
) -> ProcV<B> {
    ProcV {
        pid,
        behavior,
        state: Some(state),
        mailbox: Seq::empty(),
        reductions: 0,
        status: ProcessStatus::Runnable,
        priority: Priority::Normal,
        links: Seq::empty(),
        monitors: Seq::empty(),
        monitored_by: Seq::empty(),
        supervisor: None,
        trap_exit: false,
    }
}

/// A process with one more message at the end of its mailbox; one that waited wakes up.
pub open spec fn delivered<B: AgentBehavior>(p: ProcV<B>, msg: Message) -> ProcV<B> {
    ProcV {
        mailbox: p.mailbox.push(msg),
        status: if p.status == ProcessStatus::Waiting {
            ProcessStatus::Runnable
        } else {
            p.status
        },
        ..p
    }
}

impl<B: AgentBehavior> AgentProcess<B> {
    /// A process that starts with the given state.
    pub fn started(pid: AgentPid, behavior: B, state: B::State) -> (r: Self)
        ensures
            r@ == fresh_process(pid, behavior, state),
    {
        let r = AgentProcess {
            pid,
            behavior,
            state: Some(state),
            mailbox: VecDeque::new(),
            reductions: 0,
            status: ProcessStatus::Runnable,
            priority: Priority::Normal,
            links: Vec::new(),
            monitors: Vec::new(),
            monitored_by: Vec::new(),
            supervisor: None,
            trap_exit: false,
        };
        assert(r@.links =~= Seq::empty());
        assert(r@.monitors =~= Seq::empty());
        assert(r@.monitored_by =~= Seq::empty());
        r
    }

    /// Starts a process under the next id of the source. The behavior gives the first state,
    /// or the reason why there is no process; the id is used up either way.
    pub fn new(pids: &mut PidSource, behavior: B, args: Json) -> (r: Result<Self, Reason>)
        ensures
            final(pids)@ == if old(pids)@ == u64::MAX {
                0
            } else {
                old(pids)@ + 1
            },
            r matches Ok(p) ==> {
                &&& p.state is Some
                &&& call_ensures(B::init, (&behavior, args), Ok::<B::State, Reason>(p.state->0))
                &&& p@ == fresh_process(AgentPid(old(pids)@), behavior, p.state->0)
            },
            r matches Err(e) ==> call_ensures(B::init, (&behavior, args), Err::<B::State, Reason>(e)),
    {
        let pid: AgentPid = AgentPid::new(pids);
        match behavior.init(args) {
            Ok(state) => Ok(AgentProcess::started(pid, behavior, state)),
            Err(e) => Err(e),
        }
    }

    /// Puts a message at the end of the mailbox and wakes the process where it waits.
    pub fn deliver_message(&mut self, msg: Message)
        ensures
            final(self)@ == delivered(old(self)@, msg),
    {
        self.mailbox.push_back(msg);
        if self.status == ProcessStatus::Waiting {
            self.status = ProcessStatus::Runnable;
        }
    }

    /// Whether the mailbox holds a message.
    pub fn has_messages(&self) -> (r: bool)
        ensures
            r == (self@.mailbox.len() > 0),
    {
        self.mailbox.len() > 0
    }

    /// Takes the first message out of the mailbox.
    pub fn next_message(&mut self) -> (r: Option<Message>)
        ensures
            old(self)@.mailbox.len() == 0 ==> r is None && final(self)@ == old(self)@,
            old(self)@.mailbox.len() > 0 ==> r == Some(old(self)@.mailbox[0]) && final(self)@
                == (ProcV { mailbox: old(self)@.mailbox.drop_first(), ..old(self)@ }),
    {
        let r = self.mailbox.pop_front();
        assert(old(self)@.mailbox.len() > 0 ==> self@.mailbox =~= old(self)@.mailbox.drop_first());
        assert(old(self)@.mailbox.len() == 0 ==> self@.mailbox =~= old(self)@.mailbox);
        r
    }

    /// Ends the process: its behavior is told where there is a state, and the state is gone.
    pub fn terminate(&mut self, reason: Reason)
        ensures
            final(self)@ == (ProcV {
                status: ProcessStatus::Exiting,
                state: None,
                ..old(self)@
            }),
            told_end(old(self)@, reason),
    {
        self.status = ProcessStatus::Exiting;
        let mut state = None;
        core::mem::swap(&mut state, &mut self.state);
        if let Some(mut s) = state {
            self.behavior.terminate(reason, &mut s);
        }
    }
}

/// The behavior of a process with a state was told that the process ends, and why.
pub open spec fn told_end<B: AgentBehavior>(p: ProcV<B>, reason: Reason) -> bool {
    p.state is Some ==> exists|m: &mut B::State|
        *m == p.state->0 && #[trigger] call_ensures(B::terminate, (&p.behavior, reason, m), ())
}

/// Messages leave the mailbox in the order in which they came: a new one stands behind all that
/// wait, and comes first only where none does.
pub proof fn law_first_in_first_out<B: AgentBehavior>(p: ProcV<B>, msg: Message)
    ensures
        p.mailbox.len() == 0 ==> delivered(p, msg).mailbox[0] == msg,
        p.mailbox.len() > 0 ==> delivered(p, msg).mailbox[0] == p.mailbox[0] && delivered(
            p,
            msg,
        ).mailbox.drop_first() == p.mailbox.drop_first().push(msg),
        p.status == ProcessStatus::Waiting ==> delivered(p, msg).status == ProcessStatus::Runnable,
{
    if p.mailbox.len() > 0 {
        assert(p.mailbox.push(msg).drop_first() =~= p.mailbox.drop_first().push(msg));
    }
}

} // verus!
