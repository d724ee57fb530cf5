//! The two roles of an orchestration as behaviors of processes.
use vstd::prelude::*;
use crate::agent_rt::orchestration;
use crate::agent_rt::orchestration::{
    OrchV, OrchestratorBehavior, OrchestratorState, WorkerBehavior, WorkerState, WorkerV,
};
use crate::agent_rt::types::{Action, ActionV, AgentBehavior, AgentPid, Message, MessageV, Reason, ReasonV};
use crate::json::{Json, JsonV};

verus! {

/// What a process does in an orchestration.
pub enum Role {
    /// It hands out tasks. It goes on from a checkpoint where there is one.
    Orchestrator { behavior: OrchestratorBehavior, checkpoint: Option<Json> },
    /// It does one task.
    Worker(WorkerBehavior),
}

/// The state of a process in an orchestration.
pub enum RoleState {
    Orchestrator(OrchestratorState),
    Worker(WorkerState),
}

/// What the state of a process in an orchestration is.
pub enum RoleV {
    Orchestrator(OrchV),
    Worker(WorkerV),
}

impl View for RoleState {
    type V = RoleV;

    open spec fn view(&self) -> RoleV {
        match self {
            RoleState::Orchestrator(s) => RoleV::Orchestrator(s@),
            RoleState::Worker(s) => RoleV::Worker(s@),
        }
    }
}

/// An action of a role: a process that it starts is a worker.
pub open spec fn in_role(a: ActionV<WorkerBehavior>) -> ActionV<Role> {
    match a {
        ActionV::Continue => ActionV::Continue,
        ActionV::Send { to, msg } => ActionV::Send { to, msg },
        ActionV::IoRequest(op) => ActionV::IoRequest(op),
        ActionV::Spawn { behavior, args, link, monitor } => ActionV::Spawn {
            behavior: Role::Worker(behavior),
            args,
            link,
            monitor,
        },
        ActionV::Stop(r) => ActionV::Stop(r),
    }
}

fn lift(a: Action<WorkerBehavior>) -> (r: Action<Role>)
    ensures
        r@ == in_role(a@),
{
    match a {
        Action::Continue => Action::Continue,
        Action::Send { to, msg } => Action::Send { to, msg },
        Action::IoRequest(op) => Action::IoRequest(op),
        Action::Spawn { behavior, args, link, monitor } => Action::Spawn {
            behavior: Role::Worker(behavior),
            args,
            link,
            monitor,
        },
        Action::Stop(r) => Action::Stop(r),
    }
}

/// What a process does about a message. A state of the other role is left alone.
pub open spec fn act(role: Role, s: RoleV, msg: MessageV) -> (RoleV, ActionV<Role>) {
    match (role, s) {
        (Role::Orchestrator { behavior, .. }, RoleV::Orchestrator(o)) => {
            let (o1, a) = orchestration::orchestrate(behavior, o, msg);
            (RoleV::Orchestrator(o1), in_role(a))
        },
        (Role::Worker(_), RoleV::Worker(w)) => {
            let (w1, a) = orchestration::work(w, msg);
            (RoleV::Worker(w1), in_role(a))
        },
        _ => (s, ActionV::Continue),
    }
}

/// What a process does about the end of a linked one. A worker does nothing.
pub open spec fn mourn(role: Role, s: RoleV, from: AgentPid, reason: ReasonV) -> (
    RoleV,
    ActionV<Role>,
) {
    match (role, s) {
        (Role::Orchestrator { behavior, .. }, RoleV::Orchestrator(o)) => {
            let (o1, a) = orchestration::next_step(
                behavior,
                orchestration::persisted(
                    behavior,
                    orchestration::worker_gone(o, from.0, reason),
                ),
            );
            (RoleV::Orchestrator(o1), in_role(a))
        },
        _ => (s, ActionV::Continue),
    }
}

/// A copy of a checkpoint.
fn dup_checkpoint(c: &Option<Json>) -> (r: Option<Json>)
    ensures
        orchestration::opt_json(r) == orchestration::opt_json(*c),
{
    match c {
        Some(v) => Some(v.dup()),
        None => None,
    }
}

impl AgentBehavior for Role {
    type State = RoleState;

    fn init(&self, args: Json) -> (r: Result<RoleState, Reason>)
        ensures
            match self {
                Role::Orchestrator { behavior: _, checkpoint } => r matches Ok(s) && s@
                    == RoleV::Orchestrator(
                    orchestration::started(args@, orchestration::opt_json(*checkpoint)),
                ),
                Role::Worker(_) => match r {
                    Ok(s) => args@.get_unsigned("parent_pid"@) is Some && s@ == RoleV::Worker(
                        orchestration::ready(args@),
                    ),
                    Err(e) => args@.get_unsigned("parent_pid"@) is None && e@ == ReasonV::Custom(
                        "worker init requires parent_pid"@,
                    ),
                },
            },
    {
        match self {
            Role::Orchestrator { behavior, checkpoint } => {
                let s = behavior.init_with(&args, dup_checkpoint(checkpoint));
                Ok(RoleState::Orchestrator(s))
            },
            Role::Worker(w) => match w.init(&args) {
                Ok(s) => Ok(RoleState::Worker(s)),
                Err(e) => Err(e),
            },
        }
    }

    fn handle_message(&self, msg: Message, state: &mut RoleState) -> (r: Action<Self>)
        ensures
            (final(state)@, r@) == act(*self, old(state)@, msg@),
    {
        match (self, state) {
            (Role::Orchestrator { behavior, checkpoint: _ }, RoleState::Orchestrator(s)) => {
                let a = behavior.handle_message(msg, s);
                lift(a)
            },
            (Role::Worker(w), RoleState::Worker(s)) => {
                let a = w.handle_message(msg, s);
                lift(a)
            },
            _ => Action::Continue,
        }
    }

    fn handle_exit(&self, from: AgentPid, reason: Reason, state: &mut RoleState) -> (r: Action<Self>)
        ensures
            (final(state)@, r@) == mourn(*self, old(state)@, from, reason@),
    {
        match (self, state) {
            (Role::Orchestrator { behavior, checkpoint: _ }, RoleState::Orchestrator(s)) => {
                let a = behavior.handle_exit(from, reason, s);
                lift(a)
            },
            _ => Action::Continue,
        }
    }

    fn terminate(&self, reason: Reason, state: &mut RoleState)
        ensures
            *final(state) == *old(state),
    {
    }
}

/// A process keeps to its role, whatever it is told.
pub proof fn law_role_is_kept(role: Role, s: RoleV, msg: MessageV)
    ensures
        act(role, s, msg).0 is Worker <==> s is Worker,
        role is Worker ==> !(act(role, s, msg).1 is Spawn),
{
}

/// A process acts as its role does: what it sends, asks for or ends with is the same, and a process
/// that an orchestrator starts is a worker with the behavior and the arguments that it gave.
pub proof fn law_acts_as_role(role: Role, s: RoleV, msg: MessageV)
    ensures
        (role matches Role::Orchestrator { behavior, checkpoint } && s matches RoleV::Orchestrator(
            o,
        )) ==> ({
            let (o1, a) = orchestration::orchestrate(role->behavior, s->Orchestrator_0, msg);
            let (t, b) = act(role, s, msg);
            &&& t == RoleV::Orchestrator(o1)
            &&& a matches ActionV::Send { to, msg } ==> b == (ActionV::Send::<Role> { to, msg })
            &&& a matches ActionV::IoRequest(op) ==> b == ActionV::IoRequest::<Role>(op)
            &&& a matches ActionV::Stop(r) ==> b == ActionV::Stop::<Role>(r)
            &&& a matches ActionV::Spawn { behavior: w, args, link, monitor } ==> b == (
            ActionV::Spawn::<Role> { behavior: Role::Worker(w), args, link, monitor })
            &&& a is Continue <==> b is Continue
        }),
        role is Worker && s is Worker ==> ({
            let (w1, a) = orchestration::work(s->Worker_0, msg);
            let (t, b) = act(role, s, msg);
            &&& t == RoleV::Worker(w1)
            &&& a matches ActionV::Send { to, msg } ==> b == (ActionV::Send::<Role> { to, msg })
            &&& a matches ActionV::IoRequest(op) ==> b == ActionV::IoRequest::<Role>(op)
            &&& a matches ActionV::Stop(r) ==> b == ActionV::Stop::<Role>(r)
            &&& a is Continue <==> b is Continue
        }),
{
}

} // verus!
