//! Supervisors, which start processes and start them again when they end.
use vstd::prelude::*;
use crate::agent_rt::process;
use crate::agent_rt::registry;
use crate::agent_rt::scheduler;
use crate::agent_rt::process::{Priority, ProcV};
use crate::agent_rt::registry::RegV;
use crate::agent_rt::scheduler::{AgentScheduler, SchedV};
use crate::agent_rt::types::{AgentBehavior, AgentPid, Reason};
use crate::json::Json;

verus! {

/// Which children are started again when one ends.
#[derive(Debug, Clone, Copy, PartialEq, Eq, Structural)]
pub enum RestartStrategy {
    /// The one that ended.
    OneForOne,
    /// All of them.
    OneForAll,
    /// The one that ended and those after it.
    RestForOne,
}

/// When a child is started again.
#[derive(Debug, Clone, Copy, PartialEq, Eq, Structural)]
pub enum ChildRestart {
    /// Always.
    Permanent,
    /// When it did not end well.
    Transient,
    /// Never.
    Temporary,
}

/// How long a child has to end when it is told to.
#[derive(Debug, Clone, Copy, PartialEq, Eq, Structural)]
pub enum ShutdownPolicy {
    Timeout(u64),
    Brutal,
    Infinity,
}

/// How a child is started.
pub struct ChildSpec<B> {
    pub id: String,
    pub behavior: B,
    pub args: Json,
    pub restart: ChildRestart,
    pub shutdown: ShutdownPolicy,
    pub priority: Priority,
}

impl<B: Clone> ChildSpec<B> {
    /// A copy of this specification.
    pub fn clone_spec(&self) -> (r: Self)
        ensures
            r.id == self.id,
            cloned(self.behavior, r.behavior),
            r.args@ == self.args@,
            r.restart == self.restart,
            r.shutdown == self.shutdown,
            r.priority == self.priority,
    {
        ChildSpec {
            id: self.id.clone(),
            behavior: self.behavior.clone(),
            args: self.args.dup(),
            restart: self.restart,
            shutdown: self.shutdown,
            priority: self.priority,
        }
    }
}

/// How a supervisor is started.
pub struct SupervisorSpec<B> {
    pub strategy: RestartStrategy,
    pub max_restarts: u32,
    pub max_seconds: u32,
    pub children: Vec<ChildSpec<B>>,
}

/// A child that has been started.
pub struct RunningChild<B> {
    pub id: String,
    pub pid: AgentPid,
    pub spec: ChildSpec<B>,
}

/// Looks after its children.
pub struct Supervisor<B> {
    pub strategy: RestartStrategy,
    pub max_restarts: u32,
    pub max_seconds: u32,
    pub children: Vec<RunningChild<B>>,
    /// When children were started again, in nanoseconds.
    pub restart_timestamps: Vec<u128>,
    pub shutdown: bool,
}

/// What a supervisor is.
#[verifier::ext_equal]
pub struct SupV<B> {
    pub strategy: RestartStrategy,
    pub max_restarts: u32,
    pub max_seconds: u32,
    pub children: Seq<RunningChild<B>>,
    pub stamps: Seq<u128>,
    pub shutdown: bool,
}

impl<B> View for Supervisor<B> {
    type V = SupV<B>;

    open spec fn view(&self) -> SupV<B> {
        SupV {
            strategy: self.strategy,
            max_restarts: self.max_restarts,
            max_seconds: self.max_seconds,
            children: self.children@,
            stamps: self.restart_timestamps@,
            shutdown: self.shutdown,
        }
    }
}

// ---------------------------------------------------------------------------
// Starting children
// ---------------------------------------------------------------------------
/// What became of one start: the behavior that the process got, and the state that the
/// behavior gave it, or nothing where it refused.
pub struct Start<B: AgentBehavior> {
    pub behavior: B,
    pub state: Option<B::State>,
}

/// What the behavior answered fits what became of the start.
pub open spec fn start_fits<B: AgentBehavior + Clone>(spec: ChildSpec<B>, o: Start<B>) -> bool {
    &&& cloned(spec.behavior, o.behavior)
    &&& exists|args: Json| #![trigger args.view()]
        args@ == spec.args@ && scheduler::start_ok((o.behavior, args), o.state)
}

/// This is the reason for which the behavior of a child refused to start.
pub open spec fn refused<B: AgentBehavior + Clone>(spec: ChildSpec<B>, e: Reason) -> bool {
    exists|b: B, args: Json|
        cloned(spec.behavior, b) && args@ == spec.args@ && #[trigger] call_ensures(
            B::init,
            (&b, args),
            Err::<B::State, Reason>(e),
        )
}

/// The scheduler after one start: the id is used up, and where there is a process, it has the
/// priority of its specification and is queued.
pub open spec fn start_one<B: AgentBehavior>(s: SchedV<B>, spec: ChildSpec<B>, o: Start<B>) -> SchedV<
    B,
> {
    let pid = AgentPid(s.reg.next);
    let t = SchedV { reg: RegV { next: registry::pid_after(s.reg.next), ..s.reg }, ..s };
    match o.state {
        Some(st) => scheduler::enqueued(
            scheduler::with_process(
                t,
                pid,
                ProcV {
                    priority: spec.priority,
                    ..process::fresh_process(pid, o.behavior, st)
                },
            ),
            pid,
        ),
        None => t,
    }
}

/// The child that comes of a start, if one does.
pub open spec fn child_of<B: AgentBehavior>(s: SchedV<B>, spec: ChildSpec<B>) -> RunningChild<B> {
    RunningChild { id: spec.id, pid: AgentPid(s.reg.next), spec }
}

/// The scheduler after starts one after the other.
pub open spec fn start_all<B: AgentBehavior>(
    s: SchedV<B>,
    specs: Seq<ChildSpec<B>>,
    outs: Seq<Start<B>>,
) -> SchedV<B>
    decreases specs.len(),
{
    if specs.len() == 0 {
        s
    } else {
        start_one(
            start_all(s, specs.drop_last(), outs.drop_last()),
            specs.last(),
            outs.last(),
        )
    }
}

/// The children that come of starts one after the other.
pub open spec fn children_of<B: AgentBehavior>(
    s: SchedV<B>,
    specs: Seq<ChildSpec<B>>,
    outs: Seq<Start<B>>,
) -> Seq<RunningChild<B>>
    decreases specs.len(),
{
    if specs.len() == 0 {
        Seq::empty()
    } else {
        let before = children_of(s, specs.drop_last(), outs.drop_last());
        if outs.last().state is Some {
            before.push(
                child_of(start_all(s, specs.drop_last(), outs.drop_last()), specs.last()),
            )
        } else {
            before
        }
    }
}

/// What the behaviors answered fits what became of the starts.
pub open spec fn starts_fit<B: AgentBehavior + Clone>(specs: Seq<ChildSpec<B>>, outs: Seq<Start<B>>) -> bool {
    outs.len() == specs.len() && forall|i: int|
        0 <= i < specs.len() ==> start_fits(#[trigger] specs[i], outs[i])
}

/// Processes told to shut down, one after the other.
pub open spec fn stop_all<B: AgentBehavior>(s: SchedV<B>, pids: Seq<AgentPid>) -> SchedV<B>
    decreases pids.len(),
{
    if pids.len() == 0 {
        s
    } else {
        scheduler::ended(stop_all(s, pids.drop_last()), pids.last(), Reason::Shutdown)
    }
}

/// The behaviors of processes that are told to shut down, one after the other, are told.
pub open spec fn all_told<B: AgentBehavior>(s: SchedV<B>, pids: Seq<AgentPid>) -> bool
    decreases pids.len(),
{
    pids.len() > 0 ==> all_told(s, pids.drop_last()) && scheduler::told(
        stop_all(s, pids.drop_last()),
        pids.last(),
        Reason::Shutdown,
    )
}

/// The ids of the children that are not `dead`.
pub open spec fn others<B>(children: Seq<RunningChild<B>>, dead: AgentPid) -> Seq<AgentPid>
    decreases children.len(),
{
    if children.len() == 0 {
        Seq::empty()
    } else if children.last().pid != dead {
        others(children.drop_last(), dead).push(children.last().pid)
    } else {
        others(children.drop_last(), dead)
    }
}

/// The specifications of children.
pub open spec fn specs_of<B>(children: Seq<RunningChild<B>>) -> Seq<ChildSpec<B>> {
    children.map_values(|c: RunningChild<B>| c.spec)
}

// ---------------------------------------------------------------------------
// Restart intensity
// ---------------------------------------------------------------------------
/// The times that are at most `window` before `now`.
pub open spec fn recent(stamps: Seq<u128>, now: u128, window: u128) -> Seq<u128>
    decreases stamps.len(),
{
    if stamps.len() == 0 {
        Seq::empty()
    } else if now <= stamps.last() || now - stamps.last() <= window {
        recent(stamps.drop_last(), now, window).push(stamps.last())
    } else {
        recent(stamps.drop_last(), now, window)
    }
}

/// A number of seconds in nanoseconds.
pub open spec fn window_ns(secs: u32) -> u128 {
    (secs as int * 1_000_000_000) as u128
}

/// The times of the restarts within the window, this one included.
pub open spec fn stamps_after<B>(s: SupV<B>, now: u128) -> Seq<u128> {
    recent(s.stamps.push(now), now, window_ns(s.max_seconds))
}

/// There have been more restarts within the window than there may be.
pub open spec fn too_many<B>(s: SupV<B>, now: u128) -> bool {
    stamps_after(s, now).len() as u32 > s.max_restarts
}

/// A child that ended for this reason is to be started again.
pub open spec fn to_restart(restart: ChildRestart, reason: Reason) -> bool {
    match restart {
        ChildRestart::Permanent => true,
        ChildRestart::Transient => reason is Custom,
        ChildRestart::Temporary => false,
    }
}

/// The position of the first child with an id.
pub open spec fn first_at<B>(children: Seq<RunningChild<B>>, pid: AgentPid, i: int) -> bool {
    &&& 0 <= i < children.len()
    &&& children[i].pid == pid
    &&& forall|j: int| 0 <= j < i ==> (#[trigger] children[j]).pid != pid
}

/// The children from `from` on are replaced: those that are not dead are told to shut down,
/// then all are started from their specifications.
pub open spec fn replaced<B: AgentBehavior + Clone>(
    s0: SchedV<B>,
    c0: Seq<RunningChild<B>>,
    from: int,
    dead: AgentPid,
    s1: SchedV<B>,
    c1: Seq<RunningChild<B>>,
) -> bool {
    let rest = c0.skip(from);
    let stopped = stop_all(s0, others(rest, dead));
    all_told(s0, others(rest, dead)) && exists|outs: Seq<Start<B>>| #[trigger]
        starts_fit(specs_of(rest), outs) && s1 == start_all(stopped, specs_of(rest), outs) && c1
            == c0.take(from) + children_of(stopped, specs_of(rest), outs)
}

/// The child at `i` is replaced: it is started from its specification, in its place.
pub open spec fn replaced_one<B: AgentBehavior + Clone>(
    s0: SchedV<B>,
    c0: Seq<RunningChild<B>>,
    i: int,
    s1: SchedV<B>,
    c1: Seq<RunningChild<B>>,
) -> bool {
    exists|o: Start<B>| #[trigger]
        start_fits(c0[i].spec, o) && s1 == start_one(s0, c0[i].spec, o) && c1 == if o.state is Some {
            c0.update(i, child_of(s0, c0[i].spec))
        } else {
            c0.remove(i)
        }
}

/// What becomes of a scheduler and a supervisor when a child has ended.
pub open spec fn child_ended<B: AgentBehavior + Clone>(
    s0: SchedV<B>,
    p0: SupV<B>,
    pid: AgentPid,
    reason: Reason,
    now: u128,
    s1: SchedV<B>,
    p1: SupV<B>,
) -> bool {
    if p0.shutdown || !(exists|i: int| first_at(p0.children, pid, i)) {
        s1 == s0 && p1 == p0
    } else {
        let i = choose|i: int| first_at(p0.children, pid, i);
        let noted = SupV { stamps: stamps_after(p0, now), ..p0 };
        if !to_restart(p0.children[i].spec.restart, reason) {
            s1 == s0 && p1 == (SupV { children: p0.children.remove(i), ..p0 })
        } else if too_many(p0, now) {
            s1 == s0 && p1 == (SupV { shutdown: true, ..noted })
        } else {
            &&& p1 == (SupV { children: p1.children, ..noted })
            &&& match p0.strategy {
                RestartStrategy::OneForOne => replaced_one(s0, p0.children, i, s1, p1.children),
                RestartStrategy::OneForAll => replaced(s0, p0.children, 0, pid, s1, p1.children),
                RestartStrategy::RestForOne => replaced(s0, p0.children, i, pid, s1, p1.children),
            }
        }
    }
}

impl<B: AgentBehavior + Clone> Supervisor<B> {
    /// Starts one child and queues it.
    fn spawn_child(sched: &mut AgentScheduler<B>, spec: ChildSpec<B>) -> (r: Result<
        RunningChild<B>,
        Reason,
    >)
        requires
            old(sched).wf(),
        ensures
            final(sched).wf(),
            exists|o: Start<B>| #[trigger]
                start_fits(spec, o) && final(sched)@ == start_one(old(sched)@, spec, o) && (r is Ok
                    <==> o.state is Some),
            r matches Ok(c) ==> c == child_of(old(sched)@, spec),
            r matches Err(e) ==> refused(spec, e),
    {
        let ghost s0 = sched@;
        let behavior: B = spec.behavior.clone();
        let args: Json = spec.args.dup();
        let ghost b = behavior;
        match sched.registry.spawn(behavior, args) {
            Ok(pid) => {
                let ghost st = choose|st: B::State| #[trigger]
                    process::fresh_process(pid, b, st) == sched@.reg.procs[pid.0] && call_ensures(
                        B::init,
                        (&b, args),
                        Ok::<B::State, Reason>(st),
                    );
                if let Some(p) = sched.registry.lookup_mut(&pid) {
                    p.priority = spec.priority;
                }
                let ghost mid = sched@;
                sched.enqueue(pid);
                proof {
                    let o = Start { behavior: b, state: Some(st) };
                    assert(args@ == spec.args@);
                    assert(scheduler::start_ok((b, args), Some(st)));
                    assert(start_fits(spec, o));
                    assert(mid.reg.procs =~= s0.reg.procs.insert(
                        pid.0,
                        ProcV { priority: spec.priority, ..process::fresh_process(pid, b, st) },
                    ));
                    assert(sched@ == start_one(s0, spec, o));
                }
                Ok(RunningChild { id: spec.id.clone(), pid, spec })
            },
            Err(e) => {
                proof {
                    let o = Start::<B> { behavior: b, state: None };
                    assert(args@ == spec.args@);
                    assert(scheduler::start_ok((b, args), None::<B::State>));
                    assert(start_fits(spec, o));
                    assert(sched@ == start_one(s0, spec, o));
                }
                Err(e)
            },
        }
    }

    /// Starts a supervisor and its children, in order. Where one child cannot be started,
    /// those before it go on running.
    pub fn start(sched: &mut AgentScheduler<B>, spec: SupervisorSpec<B>) -> (r: Result<Self, Reason>)
        requires
            old(sched).wf(),
        ensures
            final(sched).wf(),
            exists|n: int, outs: Seq<Start<B>>|
                0 <= n <= spec.children@.len() && #[trigger] starts_fit(
                    spec.children@.take(n),
                    outs,
                ) && final(sched)@ == start_all(old(sched)@, spec.children@.take(n), outs) && match r {
                    Ok(sup) => n == spec.children@.len() && sup@ == (SupV {
                        strategy: spec.strategy,
                        max_restarts: spec.max_restarts,
                        max_seconds: spec.max_seconds,
                        children: children_of(old(sched)@, spec.children@, outs),
                        stamps: Seq::empty(),
                        shutdown: false,
                    }) && (forall|i: int|
                        0 <= i < outs.len() ==> (#[trigger] outs[i]).state is Some),
                    Err(e) => n > 0 && outs[n - 1].state is None && refused(
                        spec.children@[n - 1],
                        e,
                    ) && (forall|i: int|
                        0 <= i < n - 1 ==> (#[trigger] outs[i]).state is Some),
                },
    {
        let ghost s0 = sched@;
        let SupervisorSpec { strategy, max_restarts, max_seconds, children: specs } = spec;
        let ghost all = specs@;
        let mut children: Vec<RunningChild<B>> = Vec::new();
        let ghost mut outs: Seq<Start<B>> = Seq::empty();
        assert(all.take(0) =~= Seq::<ChildSpec<B>>::empty());
        for child_spec in it: specs
            invariant
                it.seq() == all,
                all == spec.children@,
                sched.wf(),
                s0 == old(sched)@,
                outs.len() == it.index(),
                starts_fit(all.take(it.index()), outs),
                sched@ == start_all(s0, all.take(it.index()), outs),
                children@ == children_of(s0, all.take(it.index()), outs),
                forall|i: int| 0 <= i < outs.len() ==> (#[trigger] outs[i]).state is Some,
        {
            let ghost n = it.index();
            let ghost before = sched@;
            let ghost kids = children@;
            let ghost now = all.take(n + 1);
            assert(now.drop_last() =~= all.take(n));
            assert(now.last() == child_spec);
            let got = Self::spawn_child(sched, child_spec);
            let ghost o = choose|o: Start<B>| #[trigger]
                start_fits(child_spec, o) && sched@ == start_one(before, child_spec, o) && (got is Ok
                    <==> o.state is Some);
            let ghost next = outs.push(o);
            proof {
                assert(next.drop_last() =~= outs);
                assert(starts_fit(now, next)) by {
                    assert forall|i: int| 0 <= i < now.len() implies start_fits(
                        #[trigger] now[i],
                        next[i],
                    ) by {
                        if i < n {
                            assert(all.take(n)[i] == now[i]);
                            assert(next[i] == outs[i]);
                        }
                    }
                }
            }
            match got {
                Ok(c) => {
                    children.push(c);
                },
                Err(e) => {
                    return Err(e);
                },
            }
            proof {
                assert forall|i: int| 0 <= i < next.len() implies (#[trigger] next[i]).state is Some by {
                    if i < n {
                        assert(next[i] == outs[i]);
                    }
                }
                outs = next;
            }
        }
        assert(all.take(all.len() as int) =~= all);
        Ok(
            Supervisor {
                strategy,
                max_restarts,
                max_seconds,
                children,
                restart_timestamps: Vec::new(),
                shutdown: false,
            },
        )
    }

    /// Starts children one after the other, after the others; those that cannot be started are
    /// left out.
    fn spawn_all(&mut self, sched: &mut AgentScheduler<B>, specs: Vec<ChildSpec<B>>)
        requires
            old(sched).wf(),
        ensures
            final(sched).wf(),
            exists|outs: Seq<Start<B>>| #[trigger]
                starts_fit(specs@, outs) && final(sched)@ == start_all(old(sched)@, specs@, outs)
                    && final(self)@ == (SupV {
                    children: old(self)@.children + children_of(old(sched)@, specs@, outs),
                    ..old(self)@
                }),
    {
        let ghost s0 = sched@;
        let ghost sup0 = self@;
        let ghost all = specs@;
        let ghost mut outs: Seq<Start<B>> = Seq::empty();
        assert(all.take(0) =~= Seq::<ChildSpec<B>>::empty());
        assert(self@.children =~= sup0.children + children_of(s0, all.take(0), outs));
        for child_spec in it: specs
            invariant
                it.seq() == all,
                all == specs@,
                sched.wf(),
                outs.len() == it.index(),
                starts_fit(all.take(it.index()), outs),
                sched@ == start_all(s0, all.take(it.index()), outs),
                self@ == (SupV {
                    children: sup0.children + children_of(s0, all.take(it.index()), outs),
                    ..sup0
                }),
        {
            let ghost n = it.index();
            let ghost before = sched@;
            let ghost now = all.take(n + 1);
            let ghost kids = children_of(s0, all.take(n), outs);
            assert(now.drop_last() =~= all.take(n));
            assert(now.last() == child_spec);
            let got = Self::spawn_child(sched, child_spec);
            let ghost o = choose|o: Start<B>| #[trigger]
                start_fits(child_spec, o) && sched@ == start_one(before, child_spec, o) && (got is Ok
                    <==> o.state is Some);
            let ghost next = outs.push(o);
            proof {
                assert(next.drop_last() =~= outs);
                assert(starts_fit(now, next)) by {
                    assert forall|i: int| 0 <= i < now.len() implies start_fits(
                        #[trigger] now[i],
                        next[i],
                    ) by {
                        if i < n {
                            assert(all.take(n)[i] == now[i]);
                            assert(next[i] == outs[i]);
                        }
                    }
                }
            }
            if let Ok(c) = got {
                self.children.push(c);
                assert(self@.children =~= sup0.children + kids.push(c));
            }
            proof {
                outs = next;
            }
        }
        assert(all.take(all.len() as int) =~= all);
    }

    /// Notes a restart at `now`, in nanoseconds, and tells whether there have been more of them
    /// in the last `max_seconds` than there may be.
    pub fn exceeds_max_restarts(&mut self, now: u128) -> (r: bool)
        ensures
            final(self)@ == (SupV { stamps: stamps_after(old(self)@, now), ..old(self)@ }),
            r == too_many(old(self)@, now),
    {
        let ghost sup0 = self@;
        let window: u128 = self.max_seconds as u128 * 1_000_000_000;
        let mut stamps: Vec<u128> = Vec::new();
        core::mem::swap(&mut stamps, &mut self.restart_timestamps);
        stamps.push(now);
        let ghost all = stamps@;
        let mut kept: Vec<u128> = Vec::new();
        let mut i: usize = 0;
        assert(kept@ =~= recent(all.take(0), now, window));
        while i < stamps.len()
            invariant
                i <= stamps@.len(),
                all == stamps@,
                kept@ == recent(all.take(i as int), now, window),
            decreases stamps@.len() - i,
        {
            let t: u128 = stamps[i];
            assert(all.take(i as int + 1).drop_last() =~= all.take(i as int));
            if now <= t || now - t <= window {
                kept.push(t);
            }
            i += 1;
        }
        assert(all.take(i as int) =~= all);
        let n: usize = kept.len();
        self.restart_timestamps = kept;
        n as u32 > self.max_restarts
    }

    /// Ends the children from `from` on, but for the dead one, and hands over their
    /// specifications.
    fn stop_from(&mut self, sched: &mut AgentScheduler<B>, from: usize, dead: AgentPid) -> (r: Vec<
        ChildSpec<B>,
    >)
        requires
            old(sched).wf(),
            from <= old(self)@.children.len(),
        ensures
            final(sched).wf(),
            final(self)@ == (SupV {
                children: old(self)@.children.take(from as int),
                ..old(self)@
            }),
            r@ == specs_of(old(self)@.children.skip(from as int)),
            final(sched)@ == stop_all(
                old(sched)@,
                others(old(self)@.children.skip(from as int), dead),
            ),
            all_told(old(sched)@, others(old(self)@.children.skip(from as int), dead)),
    {
        let ghost s0 = sched@;
        let rest: Vec<RunningChild<B>> = self.children.split_off(from);
        let ghost all = rest@;
        assert(all =~= old(self)@.children.skip(from as int));
        assert(self@.children =~= old(self)@.children.take(from as int));
        let mut specs: Vec<ChildSpec<B>> = Vec::new();
        assert(all.take(0) =~= Seq::<RunningChild<B>>::empty());
        assert(specs@ =~= specs_of(all.take(0)));
        for child in it: rest
            invariant
                it.seq() == all,
                all == rest@,
                sched.wf(),
                specs@ == specs_of(all.take(it.index())),
                sched@ == stop_all(s0, others(all.take(it.index()), dead)),
                all_told(s0, others(all.take(it.index()), dead)),
        {
            let ghost n = it.index();
            assert(all.take(n + 1).drop_last() =~= all.take(n));
            assert(all.take(n + 1).last() == child);
            let ghost pids = others(all.take(n), dead);
            if child.pid != dead {
                assert(pids.push(child.pid).drop_last() =~= pids);
                sched.terminate_process(child.pid, Reason::Shutdown);
            }
            specs.push(child.spec);
            assert(specs@ =~= specs_of(all.take(n + 1)));
        }
        assert(all.take(all.len() as int) =~= all);
        specs
    }

    /// Starts the dead child at `idx` again, in its place.
    fn restart_one(&mut self, sched: &mut AgentScheduler<B>, idx: usize)
        requires
            old(sched).wf(),
            idx < old(self)@.children.len(),
        ensures
            final(sched).wf(),
            replaced_one(
                old(sched)@,
                old(self)@.children,
                idx as int,
                final(sched)@,
                final(self)@.children,
            ),
            final(self)@ == (SupV { children: final(self)@.children, ..old(self)@ }),
    {
        let ghost s0 = sched@;
        let ghost c0 = self@.children;
        let dead = self.children.remove(idx);
        let ghost spec = dead.spec;
        let got = Self::spawn_child(sched, dead.spec);
        let ghost o = choose|o: Start<B>| #[trigger]
            start_fits(spec, o) && sched@ == start_one(s0, spec, o) && (got is Ok <==> o.state is Some);
        if let Ok(c) = got {
            self.children.insert(idx, c);
            assert(self.children@ =~= c0.update(idx as int, c));
        }
        assert(start_fits(c0[idx as int].spec, o));
    }

    /// All children are started again.
    fn restart_all(&mut self, sched: &mut AgentScheduler<B>, dead_idx: usize)
        requires
            old(sched).wf(),
            dead_idx < old(self)@.children.len(),
        ensures
            final(sched).wf(),
            replaced(
                old(sched)@,
                old(self)@.children,
                0,
                old(self)@.children[dead_idx as int].pid,
                final(sched)@,
                final(self)@.children,
            ),
            final(self)@ == (SupV { children: final(self)@.children, ..old(self)@ }),
    {
        let dead: AgentPid = self.children[dead_idx].pid;
        let specs: Vec<ChildSpec<B>> = self.stop_from(sched, 0, dead);
        self.spawn_all(sched, specs);
    }

    /// The dead child and those after it are started again.
    fn restart_rest(&mut self, sched: &mut AgentScheduler<B>, dead_idx: usize)
        requires
            old(sched).wf(),
            dead_idx < old(self)@.children.len(),
        ensures
            final(sched).wf(),
            replaced(
                old(sched)@,
                old(self)@.children,
                dead_idx as int,
                old(self)@.children[dead_idx as int].pid,
                final(sched)@,
                final(self)@.children,
            ),
            final(self)@ == (SupV { children: final(self)@.children, ..old(self)@ }),
    {
        let dead: AgentPid = self.children[dead_idx].pid;
        let specs: Vec<ChildSpec<B>> = self.stop_from(sched, dead_idx, dead);
        self.spawn_all(sched, specs);
    }

    /// The position of the first child with an id.
    fn position(&self, pid: AgentPid) -> (r: Option<usize>)
        ensures
            r matches Some(i) ==> first_at(self@.children, pid, i as int),
            r is None ==> forall|j: int|
                0 <= j < self@.children.len() ==> (#[trigger] self@.children[j]).pid != pid,
    {
        let mut i: usize = 0;
        while i < self.children.len()
            invariant
                i <= self.children@.len(),
                forall|j: int| 0 <= j < i ==> (#[trigger] self.children@[j]).pid != pid,
            decreases self.children@.len() - i,
        {
            if self.children[i].pid == pid {
                return Some(i);
            }
            i += 1;
        }
        None
    }

    /// A child has ended. It is started again where its specification says so, with the others
    /// that the strategy asks for; with too many restarts in too short a time the supervisor
    /// gives up. `now` is the time in nanoseconds.
    pub fn handle_child_exit(
        &mut self,
        sched: &mut AgentScheduler<B>,
        pid: AgentPid,
        reason: Reason,
        now: u128,
    )
        requires
            old(sched).wf(),
        ensures
            final(sched).wf(),
            child_ended(
                old(sched)@,
                old(self)@,
                pid,
                reason,
                now,
                final(sched)@,
                final(self)@,
            ),
    {
        if self.shutdown {
            return;
        }
        let idx: usize = match self.position(pid) {
            Some(i) => i,
            None => {
                return;
            },
        };
        proof {
            assert(first_at(self@.children, pid, idx as int));
            let i = choose|i: int| first_at(self@.children, pid, i);
            assert(i == idx);
        }
        let again: bool = match self.children[idx].spec.restart {
            ChildRestart::Permanent => true,
            ChildRestart::Transient => match &reason {
                Reason::Custom(_) => true,
                _ => false,
            },
            ChildRestart::Temporary => false,
        };
        if !again {
            self.children.remove(idx);
            return;
        }
        if self.exceeds_max_restarts(now) {
            self.shutdown = true;
            return;
        }
        match self.strategy {
            RestartStrategy::OneForOne => self.restart_one(sched, idx),
            RestartStrategy::OneForAll => self.restart_all(sched, idx),
            RestartStrategy::RestForOne => self.restart_rest(sched, idx),
        }
    }

    /// Whether the supervisor has given up.
    pub fn is_shutdown(&self) -> (r: bool)
        ensures
            r == self@.shutdown,
    {
        self.shutdown
    }

    /// The ids of the children, in order.
    pub fn children_pids(&self) -> (r: Vec<AgentPid>)
        ensures
            r@ == self@.children.map_values(|c: RunningChild<B>| c.pid),
    {
        let mut out: Vec<AgentPid> = Vec::new();
        let mut i: usize = 0;
        while i < self.children.len()
            invariant
                i <= self.children@.len(),
                out@.len() == i,
                forall|j: int| 0 <= j < i ==> #[trigger] out@[j] == self.children@[j].pid,
            decreases self.children@.len() - i,
        {
            out.push(self.children[i].pid);
            i += 1;
        }
        assert(out@ =~= self@.children.map_values(|c: RunningChild<B>| c.pid));
        out
    }
}

// ---------------------------------------------------------------------------
// What holds of every supervisor
// ---------------------------------------------------------------------------
/// A temporary child is never started again, and a transient one not after it ended well.
pub proof fn law_no_restart_after_normal_end(restart: ChildRestart, reason: Reason)
    requires
        restart == ChildRestart::Temporary || restart == ChildRestart::Transient && !(reason is Custom),
    ensures
        !to_restart(restart, reason),
{
}

/// Old restarts do not count: only those within the window are kept.
pub proof fn law_recent_within_window(stamps: Seq<u128>, now: u128, window: u128, i: int)
    requires
        0 <= i < recent(stamps, now, window).len(),
    ensures
        now <= recent(stamps, now, window)[i] || now - recent(stamps, now, window)[i] <= window,
        recent(stamps, now, window).len() <= stamps.len(),
    decreases stamps.len(),
{
    if stamps.len() > 0 {
        let before = recent(stamps.drop_last(), now, window);
        if i < before.len() {
            law_recent_within_window(stamps.drop_last(), now, window, i);
        } else {
            lemma_recent_len(stamps, now, window);
        }
        lemma_recent_len(stamps, now, window);
    }
}

proof fn lemma_recent_len(stamps: Seq<u128>, now: u128, window: u128)
    ensures
        recent(stamps, now, window).len() <= stamps.len(),
    decreases stamps.len(),
{
    if stamps.len() > 0 {
        lemma_recent_len(stamps.drop_last(), now, window);
    }
}

proof fn lemma_stopped_reg<B: AgentBehavior>(s: SchedV<B>, pids: Seq<AgentPid>)
    ensures
        stop_all(s, pids).reg.next == s.reg.next,
        registry::below(s.reg) ==> registry::below(stop_all(s, pids).reg),
        forall|k: u64| #[trigger]
            stop_all(s, pids).reg.procs.dom().contains(k) ==> s.reg.procs.dom().contains(k),
    decreases pids.len(),
{
    if pids.len() > 0 {
        lemma_stopped_reg(s, pids.drop_last());
        scheduler::lemma_ended_reg(stop_all(s, pids.drop_last()), pids.last(), Reason::Shutdown);
    }
}

proof fn lemma_started_fresh<B: AgentBehavior>(
    s: SchedV<B>,
    specs: Seq<ChildSpec<B>>,
    outs: Seq<Start<B>>,
)
    requires
        registry::below(s.reg),
        s.reg.next + specs.len() <= u64::MAX,
    ensures
        registry::below(start_all(s, specs, outs).reg),
        start_all(s, specs, outs).reg.next == s.reg.next + specs.len(),
        forall|i: int|
            0 <= i < children_of(s, specs, outs).len() ==> s.reg.next <= (#[trigger] children_of(
                s,
                specs,
                outs,
            )[i]).pid.0 < s.reg.next + specs.len(),
        forall|i: int, j: int|
            0 <= i < j < children_of(s, specs, outs).len() ==> (#[trigger] children_of(
                s,
                specs,
                outs,
            )[i]).pid.0 < (#[trigger] children_of(s, specs, outs)[j]).pid.0,
    decreases specs.len(),
{
    if specs.len() > 0 {
        lemma_started_fresh(s, specs.drop_last(), outs.drop_last());
    }
}

/// Children that are started again have ids that no process had before, not even those that were
/// stopped for it, and different ones, as long as there are enough ids.
pub proof fn law_restarted_have_new_ids<B: AgentBehavior>(
    s: SchedV<B>,
    stopped: Seq<AgentPid>,
    specs: Seq<ChildSpec<B>>,
    outs: Seq<Start<B>>,
)
    requires
        registry::below(s.reg),
        s.reg.next + specs.len() <= u64::MAX,
    ensures
        ({
            let t = stop_all(s, stopped);
            let kids = children_of(t, specs, outs);
            &&& registry::below(start_all(t, specs, outs).reg)
            &&& forall|i: int|
                0 <= i < kids.len() ==> !s.reg.procs.dom().contains((#[trigger] kids[i]).pid.0)
            &&& forall|i: int, j: int|
                0 <= i < j < kids.len() ==> (#[trigger] kids[i]).pid != (#[trigger] kids[j]).pid
        }),
{
    lemma_stopped_reg(s, stopped);
    lemma_started_fresh(stop_all(s, stopped), specs, outs);
}

/// Where every start succeeds, each child is there again, under its id and in its place.
pub proof fn law_children_come_back<B: AgentBehavior>(
    s: SchedV<B>,
    specs: Seq<ChildSpec<B>>,
    outs: Seq<Start<B>>,
    i: int,
)
    requires
        outs.len() == specs.len(),
        forall|k: int| 0 <= k < outs.len() ==> (#[trigger] outs[k]).state is Some,
        0 <= i < specs.len(),
    ensures
        children_of(s, specs, outs).len() == specs.len(),
        children_of(s, specs, outs)[i].spec == specs[i],
        children_of(s, specs, outs)[i].id == specs[i].id,
    decreases specs.len(),
{
    reveal_with_fuel(children_of, 2);
    let t = outs.drop_last();
    assert forall|k: int| 0 <= k < t.len() implies (#[trigger] t[k]).state is Some by {
        assert(t[k] == outs[k]);
    }
    assert(outs.last() == outs[outs.len() - 1]);
    if specs.len() > 1 {
        if i < specs.len() - 1 {
            law_children_come_back(s, specs.drop_last(), t, i);
        } else {
            law_children_come_back(s, specs.drop_last(), t, 0);
        }
    }
}

// ---------------------------------------------------------------------------
// What becomes of a child that has ended
// ---------------------------------------------------------------------------
/// The child is one that is to be started again after this end: a permanent one always, a
/// transient one where it did not end well.
pub open spec fn deserves_restart(restart: ChildRestart, reason: Reason) -> bool {
    restart == ChildRestart::Permanent || (restart == ChildRestart::Transient && reason is Custom)
}

/// How many of the restarts so far lie within the last `max_seconds`.
pub open spec fn restarts_within<B>(p: SupV<B>, now: u128) -> nat {
    p.stamps.filter(|t: u128| now <= t || now - t <= p.max_seconds * 1_000_000_000).len()
}

/// A permanent child is started again whatever the reason, a temporary one never, and a transient
/// one exactly after an end that was neither normal nor a shutdown.
pub proof fn law_restart_by_type(reason: Reason)
    ensures
        to_restart(ChildRestart::Permanent, reason),
        to_restart(ChildRestart::Transient, reason) <==> reason is Custom,
        to_restart(ChildRestart::Transient, reason) <==> !(reason is Normal) && !(reason is Shutdown),
        !to_restart(ChildRestart::Temporary, reason),
{
}

proof fn lemma_recent_filter(stamps: Seq<u128>, now: u128, window: u128)
    ensures
        recent(stamps, now, window) == stamps.filter(
            |t: u128| now <= t || now - t <= window,
        ),
    decreases stamps.len(),
{
    reveal(Seq::filter);
    if stamps.len() > 0 {
        lemma_recent_filter(stamps.drop_last(), now, window);
    } else {
        assert(recent(stamps, now, window) =~= stamps.filter(
            |t: u128| now <= t || now - t <= window,
        ));
    }
}

/// What counts as a restart within the window: all that lie at most `max_seconds` back and no
/// others, in their order, and the one that is being made.
pub proof fn law_restarts_counted<B>(p: SupV<B>, now: u128)
    ensures
        stamps_after(p, now) == p.stamps.filter(
            |t: u128| now <= t || now - t <= p.max_seconds * 1_000_000_000,
        ).push(now),
        p.stamps.len() < u32::MAX ==> (too_many(p, now) <==> restarts_within(p, now) + 1
            > p.max_restarts),
{
    let w = window_ns(p.max_seconds);
    lemma_recent_filter(p.stamps, now, w);
    let f = |t: u128| now <= t || now - t <= p.max_seconds * 1_000_000_000;
    let g = |t: u128| now <= t || now - t <= w;
    assert(f =~= g);
    assert(p.stamps.push(now).drop_last() =~= p.stamps);
    lemma_recent_len(p.stamps, now, w);
    reveal_with_fuel(recent, 2);
}

/// The same child is meant: the first with the id.
proof fn lemma_first<B>(children: Seq<RunningChild<B>>, pid: AgentPid, i: int)
    requires
        first_at(children, pid, i),
    ensures
        (choose|k: int| first_at(children, pid, k)) == i,
{
    let k = choose|k: int| first_at(children, pid, k);
    assert(first_at(children, pid, k));
    if k < i {
        assert(children[k].pid != pid);
    } else if i < k {
        assert(children[i].pid != pid);
    }
}

/// A process that is none of a supervisor's children is none of its business, and a supervisor
/// that has given up does nothing any more.
pub proof fn law_strangers_ignored<B: AgentBehavior + Clone>(
    s0: SchedV<B>,
    p0: SupV<B>,
    pid: AgentPid,
    reason: Reason,
    now: u128,
    s1: SchedV<B>,
    p1: SupV<B>,
)
    requires
        child_ended(s0, p0, pid, reason, now, s1, p1),
        p0.shutdown || forall|j: int| 0 <= j < p0.children.len() ==> (#[trigger] p0.children[j]).pid != pid,
    ensures
        s1 == s0,
        p1 == p0,
{
}

/// A child that is not to be started again leaves the supervisor; the others stay, no process is
/// started, and nothing counts as a restart.
pub proof fn law_ended_child_leaves<B: AgentBehavior + Clone>(
    s0: SchedV<B>,
    p0: SupV<B>,
    pid: AgentPid,
    reason: Reason,
    now: u128,
    s1: SchedV<B>,
    p1: SupV<B>,
    i: int,
)
    requires
        child_ended(s0, p0, pid, reason, now, s1, p1),
        !p0.shutdown,
        first_at(p0.children, pid, i),
        !deserves_restart(p0.children[i].spec.restart, reason),
    ensures
        s1 == s0,
        p1.children == p0.children.take(i) + p0.children.skip(i + 1),
        p1.stamps == p0.stamps,
        !p1.shutdown,
{
    lemma_first(p0.children, pid, i);
    assert(p0.children.remove(i) =~= p0.children.take(i) + p0.children.skip(i + 1));
}

/// A supervisor gives up with the restart that is one too many within its seconds, and only then:
/// no process is started or ended for it.
pub proof fn law_gives_up<B: AgentBehavior + Clone>(
    s0: SchedV<B>,
    p0: SupV<B>,
    pid: AgentPid,
    reason: Reason,
    now: u128,
    s1: SchedV<B>,
    p1: SupV<B>,
    i: int,
)
    requires
        child_ended(s0, p0, pid, reason, now, s1, p1),
        !p0.shutdown,
        first_at(p0.children, pid, i),
        deserves_restart(p0.children[i].spec.restart, reason),
        p0.stamps.len() < u32::MAX,
    ensures
        p1.shutdown <==> restarts_within(p0, now) >= p0.max_restarts,
        p1.shutdown ==> s1 == s0 && p1.children == p0.children,
        p1.stamps.last() == now,
        p1.stamps.len() == restarts_within(p0, now) + 1,
        p1.strategy == p0.strategy && p1.max_restarts == p0.max_restarts && p1.max_seconds
            == p0.max_seconds,
{
    lemma_first(p0.children, pid, i);
    law_restarts_counted(p0, now);
}

/// A process that runs for a child: it was started from the child's specification, with its
/// priority, and stands in a queue.
pub open spec fn runs_for<B: AgentBehavior>(s: SchedV<B>, pid: AgentPid, spec: ChildSpec<B>) -> bool {
    &&& s.reg.procs.dom().contains(pid.0)
    &&& s.reg.procs[pid.0].pid == pid
    &&& s.reg.procs[pid.0].state is Some
    &&& s.reg.procs[pid.0].priority == spec.priority
    &&& s.reg.procs[pid.0].mailbox.len() == 0
    &&& s.reg.procs[pid.0].status == process::ProcessStatus::Runnable
    &&& scheduler::queued(s, pid)
}

proof fn lemma_start_one<B: AgentBehavior>(s: SchedV<B>, spec: ChildSpec<B>, o: Start<B>)
    ensures
        ({
            let t = start_one(s, spec, o);
            &&& o.state is Some ==> runs_for(t, AgentPid(s.reg.next), spec) && t.reg.procs[s.reg.next].behavior
                == o.behavior && t.reg.procs[s.reg.next].state == o.state && t.reg.procs.dom()
                == s.reg.procs.dom().insert(s.reg.next)
            &&& o.state is None ==> t.reg.procs == s.reg.procs
            &&& forall|k: u64| #[trigger]
                s.reg.procs.dom().contains(k) && k != s.reg.next ==> t.reg.procs.dom().contains(k)
                    && t.reg.procs[k] == s.reg.procs[k]
            &&& scheduler::queues_grow(s, t)
            &&& t.reg.names == s.reg.names
        }),
{
    let pid = AgentPid(s.reg.next);
    let t = SchedV { reg: RegV { next: registry::pid_after(s.reg.next), ..s.reg }, ..s };
    if let Some(st) = o.state {
        let u = scheduler::with_process(
            t,
            pid,
            ProcV { priority: spec.priority, ..process::fresh_process(pid, o.behavior, st) },
        );
        assert(u.reg.procs.dom() =~= s.reg.procs.dom().insert(pid.0));
        scheduler::law_enqueued_last(u, pid);
        assert(scheduler::queues_grow(s, u));
    }
}

/// One for one: a child that is to be started again is, in its place, from its own specification
/// and with a new id; all other children and processes stay as they are. Only where its behavior
/// refuses to start does the child leave.
pub proof fn law_one_for_one<B: AgentBehavior + Clone>(
    s0: SchedV<B>,
    p0: SupV<B>,
    pid: AgentPid,
    reason: Reason,
    now: u128,
    s1: SchedV<B>,
    p1: SupV<B>,
    i: int,
)
    requires
        child_ended(s0, p0, pid, reason, now, s1, p1),
        !p0.shutdown,
        first_at(p0.children, pid, i),
        deserves_restart(p0.children[i].spec.restart, reason),
        p0.stamps.len() < u32::MAX,
        restarts_within(p0, now) < p0.max_restarts,
        p0.strategy == RestartStrategy::OneForOne,
    ensures
        !p1.shutdown,
        forall|k: u64| #[trigger]
            s0.reg.procs.dom().contains(k) && k != s0.reg.next ==> s1.reg.procs.dom().contains(k)
                && s1.reg.procs[k] == s0.reg.procs[k],
        ({
            ||| {
                &&& p1.children.len() == p0.children.len()
                &&& forall|j: int|
                    0 <= j < p0.children.len() && j != i ==> #[trigger] p1.children[j] == p0.children[j]
                &&& p1.children[i].spec == p0.children[i].spec
                &&& p1.children[i].id == p0.children[i].spec.id
                &&& p1.children[i].pid == AgentPid(s0.reg.next)
                &&& runs_for(s1, p1.children[i].pid, p0.children[i].spec)
                &&& cloned(p0.children[i].spec.behavior, s1.reg.procs[s0.reg.next].behavior)
            }
            ||| {
                &&& p1.children == p0.children.take(i) + p0.children.skip(i + 1)
                &&& s1.reg.procs == s0.reg.procs
                &&& exists|e: Reason| #[trigger] refused(p0.children[i].spec, e)
            }
        }),
{
    lemma_first(p0.children, pid, i);
    law_restarts_counted(p0, now);
    let spec = p0.children[i].spec;
    assert(replaced_one(s0, p0.children, i, s1, p1.children));
    let o = choose|o: Start<B>| #[trigger]
        start_fits(spec, o) && s1 == start_one(s0, spec, o) && p1.children == if o.state is Some {
            p0.children.update(i, child_of(s0, spec))
        } else {
            p0.children.remove(i)
        };
    lemma_start_one(s0, spec, o);
    if o.state is None {
        assert(p0.children.remove(i) =~= p0.children.take(i) + p0.children.skip(i + 1));
        lemma_refused(spec, o);
    }
}

proof fn lemma_refused<B: AgentBehavior + Clone>(spec: ChildSpec<B>, o: Start<B>)
    requires
        start_fits(spec, o),
        o.state is None,
    ensures
        exists|e: Reason| #[trigger] refused(spec, e),
{
    let args = choose|args: Json| #![trigger args.view()]
        args@ == spec.args@ && scheduler::start_ok((o.behavior, args), o.state);
    let e = choose|e: Reason|
        call_ensures(B::init, (&o.behavior, args), Err::<B::State, Reason>(e));
    assert(call_ensures(B::init, (&o.behavior, args), Err::<B::State, Reason>(e)));
    assert(refused(spec, e));
}

proof fn lemma_stopped_gone<B: AgentBehavior>(s: SchedV<B>, pids: Seq<AgentPid>, k: u64)
    ensures
        stop_all(s, pids).reg.procs.dom().contains(k) <==> s.reg.procs.dom().contains(k)
            && !pids.contains(AgentPid(k)),
    decreases pids.len(),
{
    if pids.len() > 0 {
        let rest = pids.drop_last();
        lemma_stopped_gone(s, rest, k);
        scheduler::lemma_ended_reg(stop_all(s, rest), pids.last(), Reason::Shutdown);
        if pids.contains(AgentPid(k)) {
            let j = choose|j: int| 0 <= j < pids.len() && pids[j] == AgentPid(k);
            if j < rest.len() {
                assert(rest[j] == AgentPid(k));
            }
        } else {
            assert forall|j: int| 0 <= j < rest.len() implies rest[j] != AgentPid(k) by {
                assert(pids[j] == rest[j]);
            }
            assert(pids[pids.len() - 1] != AgentPid(k));
        }
    }
}

proof fn lemma_others_are<B>(children: Seq<RunningChild<B>>, dead: AgentPid, p: AgentPid)
    ensures
        others(children, dead).contains(p) <==> p != dead && exists|j: int|
            0 <= j < children.len() && (#[trigger] children[j]).pid == p,
    decreases children.len(),
{
    if children.len() > 0 {
        let rest = children.drop_last();
        lemma_others_are(rest, dead, p);
        let a = others(rest, dead);
        let l = children.last().pid;
        assert(a.push(l)[a.len() as int] == l);
        if a.contains(p) {
            let j = choose|j: int| 0 <= j < a.len() && a[j] == p;
            assert(a.push(l)[j] == p);
            let i = choose|i: int| 0 <= i < rest.len() && (#[trigger] rest[i]).pid == p;
            assert(children[i] == rest[i]);
        }
        if p == l {
            assert(children[children.len() - 1].pid == p);
        }
        if exists|j: int| 0 <= j < children.len() && (#[trigger] children[j]).pid == p {
            let j = choose|j: int| 0 <= j < children.len() && (#[trigger] children[j]).pid == p;
            if j < rest.len() {
                assert(rest[j] == children[j]);
            }
        }
        if others(children, dead).contains(p) {
            let b = others(children, dead);
            let j = choose|j: int| 0 <= j < b.len() && b[j] == p;
            if j < a.len() {
                assert(a[j] == p);
            }
        }
    }
}

proof fn lemma_started_run<B: AgentBehavior>(
    s: SchedV<B>,
    specs: Seq<ChildSpec<B>>,
    outs: Seq<Start<B>>,
)
    requires
        registry::below(s.reg),
        s.reg.next + specs.len() <= u64::MAX,
    ensures
        forall|i: int|
            0 <= i < children_of(s, specs, outs).len() ==> runs_for(
                start_all(s, specs, outs),
                (#[trigger] children_of(s, specs, outs)[i]).pid,
                children_of(s, specs, outs)[i].spec,
            ),
        forall|k: u64| #[trigger]
            s.reg.procs.dom().contains(k) ==> start_all(s, specs, outs).reg.procs.dom().contains(k)
                && start_all(s, specs, outs).reg.procs[k] == s.reg.procs[k],
        forall|k: u64| #[trigger]
            start_all(s, specs, outs).reg.procs.dom().contains(k) ==> s.reg.procs.dom().contains(k) || k
                >= s.reg.next,
    decreases specs.len(),
{
    if specs.len() > 0 {
        let (a, b) = (specs.drop_last(), outs.drop_last());
        lemma_started_run(s, a, b);
        lemma_started_fresh(s, a, b);
        let t = start_all(s, a, b);
        lemma_start_one(t, specs.last(), outs.last());
        let kids = children_of(s, specs, outs);
        let before = children_of(s, a, b);
        let u = start_all(s, specs, outs);
        assert forall|i: int| 0 <= i < kids.len() implies runs_for(
            u,
            (#[trigger] kids[i]).pid,
            kids[i].spec,
        ) by {
            if i < before.len() {
                assert(kids[i] == before[i]);
                assert(runs_for(t, before[i].pid, before[i].spec));
                assert(before[i].pid.0 < t.reg.next);
                assert(scheduler::queued(t, kids[i].pid));
            }
        }
        assert forall|k: u64| #[trigger] s.reg.procs.dom().contains(k) implies u.reg.procs.dom().contains(k)
            && u.reg.procs[k] == s.reg.procs[k] by {
            assert(t.reg.procs.dom().contains(k));
        }
        assert forall|k: u64| #[trigger] u.reg.procs.dom().contains(k) implies s.reg.procs.dom().contains(k)
            || k >= s.reg.next by {
            if k != t.reg.next {
                assert(t.reg.procs.dom().contains(k));
            }
        }
    }
}

/// The children from `from` on have been started again: the ones before are untouched; of each of
/// the others the old process is gone; the new children run, with new ids; and each is there again,
/// in its place and from its own specification, unless a behavior refused to start.
pub open spec fn restarted_from<B: AgentBehavior + Clone>(
    s0: SchedV<B>,
    c0: Seq<RunningChild<B>>,
    from: int,
    dead: AgentPid,
    s1: SchedV<B>,
    c1: Seq<RunningChild<B>>,
) -> bool {
    &&& from <= c1.len()
    &&& c1.take(from) == c0.take(from)
    &&& forall|j: int|
        from <= j < c0.len() && (#[trigger] c0[j]).pid != dead && c0[j].pid.0 < s0.reg.next
            ==> !s1.reg.procs.dom().contains(c0[j].pid.0)
    &&& forall|k: u64| #[trigger]
        s0.reg.procs.dom().contains(k) && (forall|j: int|
            from <= j < c0.len() ==> (#[trigger] c0[j]).pid.0 != k) ==> s1.reg.procs.dom().contains(k)
    &&& forall|j: int|
        from <= j < c1.len() ==> (#[trigger] c1[j]).pid.0 >= s0.reg.next && c1[j].id == c1[j].spec.id
            && runs_for(s1, c1[j].pid, c1[j].spec)
    &&& {
        ||| c1.len() == c0.len() && forall|j: int|
            from <= j < c0.len() ==> (#[trigger] c1[j]).spec == c0[j].spec
        ||| exists|j: int, e: Reason|
            from <= j < c0.len() && #[trigger] refused(c0[j].spec, e)
    }
}

proof fn lemma_replaced<B: AgentBehavior + Clone>(
    s0: SchedV<B>,
    c0: Seq<RunningChild<B>>,
    from: int,
    dead: AgentPid,
    s1: SchedV<B>,
    c1: Seq<RunningChild<B>>,
)
    requires
        replaced(s0, c0, from, dead, s1, c1),
        0 <= from <= c0.len(),
        registry::below(s0.reg),
        s0.reg.next + c0.len() <= u64::MAX,
    ensures
        restarted_from(s0, c0, from, dead, s1, c1),
{
    let rest = c0.skip(from);
    let pids = others(rest, dead);
    let stopped = stop_all(s0, pids);
    let specs = specs_of(rest);
    let outs = choose|outs: Seq<Start<B>>| #[trigger]
        starts_fit(specs, outs) && s1 == start_all(stopped, specs, outs) && c1 == c0.take(from)
            + children_of(stopped, specs, outs);
    let kids = children_of(stopped, specs, outs);
    lemma_stopped_reg(s0, pids);
    lemma_started_run(stopped, specs, outs);
    lemma_started_fresh(stopped, specs, outs);
    assert(c1.take(from) =~= c0.take(from));
    assert forall|j: int|
        from <= j < c0.len() && (#[trigger] c0[j]).pid != dead && c0[j].pid.0 < s0.reg.next implies !s1.reg.procs.dom().contains(
        c0[j].pid.0,
    ) by {
        let k = c0[j].pid.0;
        assert(rest[j - from] == c0[j]);
        lemma_others_are(rest, dead, c0[j].pid);
        assert(AgentPid(k) == c0[j].pid);
        lemma_stopped_gone(s0, pids, k);
    }
    assert forall|k: u64| #[trigger] s0.reg.procs.dom().contains(k) && (forall|j: int|
        from <= j < c0.len() ==> (#[trigger] c0[j]).pid.0 != k) implies s1.reg.procs.dom().contains(k) by {
        lemma_others_are(rest, dead, AgentPid(k));
        assert forall|j: int| 0 <= j < rest.len() implies (#[trigger] rest[j]).pid != AgentPid(k) by {
            assert(rest[j] == c0[j + from]);
        }
        lemma_stopped_gone(s0, pids, k);
        assert(stopped.reg.procs.dom().contains(k));
    }
    lemma_kid_ids(stopped, specs, outs);
    assert forall|j: int| from <= j < c1.len() implies (#[trigger] c1[j]).pid.0 >= s0.reg.next && c1[j].id
        == c1[j].spec.id && runs_for(s1, c1[j].pid, c1[j].spec) by {
        assert(c1[j] == kids[j - from]);
    }
    if forall|k: int| 0 <= k < outs.len() ==> (#[trigger] outs[k]).state is Some {
        if rest.len() > 0 {
            law_children_come_back(stopped, specs, outs, 0);
        }
        assert forall|j: int| from <= j < c0.len() implies (#[trigger] c1[j]).spec == c0[j].spec by {
            law_children_come_back(stopped, specs, outs, j - from);
            assert(specs[j - from] == rest[j - from].spec);
        }
        assert(c1.len() == c0.len());
    } else {
        let k = choose|k: int| 0 <= k < outs.len() && !((#[trigger] outs[k]).state is Some);
        assert(start_fits(specs[k], outs[k]));
        lemma_refused(specs[k], outs[k]);
        let e = choose|e: Reason| #[trigger] refused(specs[k], e);
        assert(specs[k] == c0[k + from].spec);
        assert(refused(c0[k + from].spec, e));
    }
}

proof fn lemma_kid_ids<B: AgentBehavior>(s: SchedV<B>, specs: Seq<ChildSpec<B>>, outs: Seq<Start<B>>)
    ensures
        forall|i: int|
            0 <= i < children_of(s, specs, outs).len() ==> (#[trigger] children_of(s, specs, outs)[i]).id
                == children_of(s, specs, outs)[i].spec.id,
    decreases specs.len(),
{
    if specs.len() > 0 {
        lemma_kid_ids(s, specs.drop_last(), outs.drop_last());
    }
}

/// One for all: when a child is to be started again, all of them are. Rest for one: it and those
/// after it are, and those before it are left alone.
pub proof fn law_group_restart<B: AgentBehavior + Clone>(
    s0: SchedV<B>,
    p0: SupV<B>,
    pid: AgentPid,
    reason: Reason,
    now: u128,
    s1: SchedV<B>,
    p1: SupV<B>,
    i: int,
)
    requires
        child_ended(s0, p0, pid, reason, now, s1, p1),
        !p0.shutdown,
        first_at(p0.children, pid, i),
        deserves_restart(p0.children[i].spec.restart, reason),
        p0.stamps.len() < u32::MAX,
        restarts_within(p0, now) < p0.max_restarts,
        registry::below(s0.reg),
        s0.reg.next + p0.children.len() <= u64::MAX,
    ensures
        !p1.shutdown,
        p0.strategy == RestartStrategy::OneForAll ==> restarted_from(
            s0,
            p0.children,
            0,
            pid,
            s1,
            p1.children,
        ),
        p0.strategy == RestartStrategy::RestForOne ==> restarted_from(
            s0,
            p0.children,
            i,
            pid,
            s1,
            p1.children,
        ),
{
    lemma_first(p0.children, pid, i);
    law_restarts_counted(p0, now);
    match p0.strategy {
        RestartStrategy::OneForAll => {
            lemma_replaced(s0, p0.children, 0, pid, s1, p1.children);
        },
        RestartStrategy::RestForOne => {
            lemma_replaced(s0, p0.children, i, pid, s1, p1.children);
        },
        _ => {},
    }
}

/// A supervisor that has started has a running child for every specification, in their order, each
/// with an id of its own.
pub proof fn law_started_children_run<B: AgentBehavior>(
    s: SchedV<B>,
    specs: Seq<ChildSpec<B>>,
    outs: Seq<Start<B>>,
    i: int,
)
    requires
        registry::below(s.reg),
        s.reg.next + specs.len() <= u64::MAX,
        outs.len() == specs.len(),
        forall|k: int| 0 <= k < outs.len() ==> (#[trigger] outs[k]).state is Some,
        0 <= i < specs.len(),
    ensures
        children_of(s, specs, outs).len() == specs.len(),
        children_of(s, specs, outs)[i].spec == specs[i],
        children_of(s, specs, outs)[i].id == specs[i].id,
        runs_for(start_all(s, specs, outs), children_of(s, specs, outs)[i].pid, specs[i]),
        forall|j: int|
            0 <= j < specs.len() && j != i ==> (#[trigger] children_of(s, specs, outs)[j]).pid
                != children_of(s, specs, outs)[i].pid,
{
    law_children_come_back(s, specs, outs, i);
    lemma_started_run(s, specs, outs);
    lemma_started_fresh(s, specs, outs);
    let kids = children_of(s, specs, outs);
    assert(kids[i].spec == specs[i]);
    assert forall|j: int| 0 <= j < specs.len() && j != i implies (#[trigger] kids[j]).pid != kids[i].pid by {
        if j < i {
            assert(kids[j].pid.0 < kids[i].pid.0);
        } else {
            assert(kids[i].pid.0 < kids[j].pid.0);
        }
    }
}

} // verus!
