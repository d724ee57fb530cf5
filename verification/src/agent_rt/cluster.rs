//! Several schedulers side by side: processes are spread over them, and messages find their way.
use vstd::prelude::*;
use crate::agent_rt::process;
use crate::agent_rt::registry;
use crate::agent_rt::registry::RegV;
use crate::agent_rt::scheduler;
use crate::agent_rt::scheduler::{AgentScheduler, SchedV};
use crate::agent_rt::types::{AgentBehavior, AgentPid, Message, Reason, FIRST_AGENT_PID};
use crate::json::Json;
use crate::util::assoc::AssocMap;
use crate::util::text;
use crate::util::text::{concat2, concat3, u64_to_text};

verus! {

/// Several schedulers, and which of them has each process.
pub struct SchedulerCluster<B: AgentBehavior> {
    pub schedulers: Vec<AgentScheduler<B>>,
    pub pid_owner: AssocMap<u64, usize>,
    pub next_spawn_partition: usize,
    pub next_tick_partition: usize,
    pub next_pid: u64,
}

/// What a cluster is.
#[verifier::ext_equal]
pub struct ClusterV<B: AgentBehavior> {
    pub parts: Seq<SchedV<B>>,
    pub owner: Map<u64, usize>,
    pub spawn_at: usize,
    pub tick_at: usize,
    pub next: u64,
}

/// What schedulers are.
pub open spec fn parts_view<B: AgentBehavior>(s: Seq<AgentScheduler<B>>) -> Seq<SchedV<B>> {
    s.map_values(|x: AgentScheduler<B>| x@)
}

impl<B: AgentBehavior> View for SchedulerCluster<B> {
    type V = ClusterV<B>;

    open spec fn view(&self) -> ClusterV<B> {
        ClusterV {
            parts: parts_view(self.schedulers@),
            owner: self.pid_owner@,
            spawn_at: self.next_spawn_partition,
            tick_at: self.next_tick_partition,
            next: self.next_pid,
        }
    }
}

/// A scheduler whose next process has the given id.
pub open spec fn with_next<B: AgentBehavior>(s: SchedV<B>, next: u64) -> SchedV<B> {
    SchedV { reg: RegV { next, ..s.reg }, ..s }
}

/// Which scheduler has each process.
pub open spec fn owners<B: AgentBehavior>(parts: Seq<SchedV<B>>) -> Map<u64, usize>
    decreases parts.len(),
{
    if parts.len() == 0 {
        Map::empty()
    } else {
        let before = owners(parts.drop_last());
        let last = parts.last().reg.procs.dom();
        Map::new(
            |k: u64| before.dom().contains(k) || last.contains(k),
            |k: u64|
                if last.contains(k) {
                    (parts.len() - 1) as usize
                } else {
                    before[k]
                },
        )
    }
}

/// The cluster knows again where each process is.
pub open spec fn reconciled<B: AgentBehavior>(c: ClusterV<B>) -> ClusterV<B> {
    ClusterV { owner: owners(c.parts), ..c }
}

/// Where a process is said to be, it is.
proof fn lemma_owner_has<B: AgentBehavior>(parts: Seq<SchedV<B>>, k: u64)
    requires
        owners(parts).dom().contains(k),
        parts.len() <= usize::MAX,
    ensures
        owners(parts)[k] < parts.len(),
        parts[owners(parts)[k] as int].reg.procs.dom().contains(k),
    decreases parts.len(),
{
    let last = parts.last().reg.procs.dom();
    if !last.contains(k) {
        lemma_owner_has(parts.drop_last(), k);
    }
}

/// There is no such process in the cluster.
pub open spec fn nowhere(pid: AgentPid) -> Seq<char> {
    "Process AgentPid("@ + text::decimal(pid.0 as nat) + ") not found in cluster"@
}

fn not_in_cluster(pid: AgentPid) -> (r: String)
    ensures
        r@ == nowhere(pid),
{
    let n: String = u64_to_text(pid.raw());
    concat3("Process AgentPid(", n.as_str(), ") not found in cluster")
}

/// A message goes to the scheduler that has its receiver.
pub open spec fn delivered<B: AgentBehavior>(c: ClusterV<B>, to: AgentPid, msg: Message) -> ClusterV<B> {
    let d = reconciled(c);
    if d.owner.dom().contains(to.0) {
        let i = d.owner[to.0] as int;
        ClusterV { parts: d.parts.update(i, scheduler::sent(d.parts[i], to, msg)), ..d }
    } else {
        d
    }
}

/// Messages go to the schedulers that have their receivers, one after the other; those that
/// nobody has are lost.
pub open spec fn all_delivered<B: AgentBehavior>(
    c: ClusterV<B>,
    msgs: Seq<(AgentPid, Message)>,
) -> ClusterV<B>
    decreases msgs.len(),
{
    if msgs.len() == 0 {
        c
    } else {
        delivered(all_delivered(c, msgs.drop_last()), msgs.last().0, msgs.last().1)
    }
}

/// How many messages have a receiver.
pub open spec fn deliverable<B: AgentBehavior>(c: ClusterV<B>, msgs: Seq<(AgentPid, Message)>) -> nat
    decreases msgs.len(),
{
    if msgs.len() == 0 {
        0
    } else {
        let before = all_delivered(c, msgs.drop_last());
        deliverable(c, msgs.drop_last()) + if owners(before.parts).dom().contains(
            msgs.last().0.0,
        ) {
            1nat
        } else {
            0nat
        }
    }
}

/// The messages that schedulers could not deliver, in order.
pub open spec fn outbound_of<B: AgentBehavior>(parts: Seq<SchedV<B>>) -> Seq<(AgentPid, Message)>
    decreases parts.len(),
{
    if parts.len() == 0 {
        Seq::empty()
    } else {
        outbound_of(parts.drop_last()) + parts.last().outbound
    }
}

/// Schedulers that have handed over what they could not deliver.
pub open spec fn drained<B: AgentBehavior>(parts: Seq<SchedV<B>>) -> Seq<SchedV<B>> {
    parts.map_values(|s: SchedV<B>| SchedV { outbound: Seq::empty(), ..s })
}

/// What the schedulers could not deliver goes to where its receivers are.
pub open spec fn routed<B: AgentBehavior>(c: ClusterV<B>) -> ClusterV<B> {
    all_delivered(ClusterV { parts: drained(c.parts), ..c }, outbound_of(c.parts))
}

/// How many messages found their way.
pub open spec fn routed_count<B: AgentBehavior>(c: ClusterV<B>) -> nat {
    deliverable(ClusterV { parts: drained(c.parts), ..c }, outbound_of(c.parts))
}

/// One scheduler has a turn.
pub open spec fn part_ticked<B: AgentBehavior>(
    c0: ClusterV<B>,
    i: int,
    c1: ClusterV<B>,
    worked: bool,
) -> bool {
    exists|t: SchedV<B>| #[trigger]
        scheduler::ticked(with_next(c0.parts[i], c0.next), t, worked) && c1 == (ClusterV {
            parts: c0.parts.update(i, t),
            next: t.reg.next,
            ..c0
        })
}

/// Which scheduler has its turn as the `k`th of a round.
pub open spec fn turn_at(first: usize, k: int, count: nat) -> int {
    if first + k < count {
        first + k
    } else {
        first + k - count
    }
}

/// A round so far: every scheduler in turn, beginning with the one whose turn it is.
pub open spec fn round<B: AgentBehavior>(
    c: ClusterV<B>,
    trace: Seq<ClusterV<B>>,
    works: Seq<bool>,
) -> bool {
    &&& trace.len() == works.len() + 1
    &&& trace[0] == c
    &&& forall|k: int|
        0 <= k < works.len() ==> part_ticked(
            #[trigger] trace[k],
            turn_at(c.tick_at, k, c.parts.len()),
            trace[k + 1],
            works[k],
        )
}

/// One round over all schedulers. Then messages that crossed over find their way.
pub open spec fn round_done<B: AgentBehavior>(
    c: ClusterV<B>,
    trace: Seq<ClusterV<B>>,
    works: Seq<bool>,
) -> ClusterV<B> {
    let n = c.parts.len();
    reconciled(
        routed(
            ClusterV {
                tick_at: if c.tick_at + 1 < n {
                    (c.tick_at + 1) as usize
                } else {
                    0
                },
                ..trace.last()
            },
        ),
    )
}

impl<B: AgentBehavior> SchedulerCluster<B> {
    /// There is a scheduler, all of them are sound, and whose turn it is makes sense.
    pub open spec fn wf(&self) -> bool {
        &&& self.schedulers@.len() > 0
        &&& forall|i: int| 0 <= i < self.schedulers@.len() ==> (#[trigger] self.schedulers@[i]).wf()
        &&& self.next_spawn_partition < self.schedulers@.len()
        &&& self.next_tick_partition < self.schedulers@.len()
    }

    /// A cluster of so many schedulers without processes; there is at least one.
    pub fn new(partitions: usize) -> (r: Self)
        ensures
            r.wf(),
            r@.parts.len() == if partitions == 0 {
                1
            } else {
                partitions as nat
            },
            forall|i: int|
                0 <= i < r@.parts.len() ==> (#[trigger] r@.parts[i]).external
                    && r@.parts[i].reg.procs.dom().is_empty() && r@.parts[i].outbound.len() == 0
                    && r@.parts[i].high.len() == 0 && r@.parts[i].normal.len() == 0
                    && r@.parts[i].low.len() == 0,
            r@.owner == Map::<u64, usize>::empty(),
            r@.spawn_at == 0,
            r@.tick_at == 0,
            r@.next == FIRST_AGENT_PID,
    {
        let count: usize = if partitions == 0 {
            1
        } else {
            partitions
        };
        let mut schedulers: Vec<AgentScheduler<B>> = Vec::new();
        let mut i: usize = 0;
        while i < count
            invariant
                i <= count,
                schedulers@.len() == i,
                forall|j: int|
                    0 <= j < i ==> (#[trigger] schedulers@[j]).wf() && schedulers@[j]@.external
                        && schedulers@[j]@.reg.procs.dom().is_empty()
                        && schedulers@[j]@.outbound.len() == 0 && schedulers@[j]@.high.len() == 0
                        && schedulers@[j]@.normal.len() == 0 && schedulers@[j]@.low.len() == 0,
            decreases count - i,
        {
            let mut s: AgentScheduler<B> = AgentScheduler::new();
            s.set_external_routing(true);
            schedulers.push(s);
            i += 1;
        }
        let r = SchedulerCluster {
            schedulers,
            pid_owner: AssocMap::new(),
            next_spawn_partition: 0,
            next_tick_partition: 0,
            next_pid: FIRST_AGENT_PID,
        };
        proof {
            assert forall|j: int| 0 <= j < r@.parts.len() implies (#[trigger] r@.parts[j]).external
                && r@.parts[j].reg.procs.dom().is_empty() && r@.parts[j].outbound.len() == 0
                && r@.parts[j].high.len() == 0 && r@.parts[j].normal.len() == 0
                && r@.parts[j].low.len() == 0 by {
                assert(r@.parts[j] == schedulers@[j]@);
            }
        }
        r
    }

    /// How many schedulers there are.
    pub fn scheduler_count(&self) -> (r: usize)
        ensures
            r == self@.parts.len(),
    {
        self.schedulers.len()
    }

    /// One of the schedulers.
    pub fn scheduler(&self, index: usize) -> (r: Option<&AgentScheduler<B>>)
        ensures
            r is Some <==> index < self@.parts.len(),
            r matches Some(s) ==> s@ == self@.parts[index as int],
    {
        if index < self.schedulers.len() {
            Some(&self.schedulers[index])
        } else {
            None
        }
    }

    /// One of the schedulers, to change it. What is made of it stays in its place.
    pub fn scheduler_mut(&mut self, index: usize) -> (r: Option<&mut AgentScheduler<B>>)
        ensures
            r is Some <==> index < old(self)@.parts.len(),
            r is None ==> final(self)@ == old(self)@,
            r matches Some(s) ==> s@ == old(self)@.parts[index as int] && final(self)@
                == (ClusterV {
                parts: old(self)@.parts.update(index as int, final(s)@),
                ..old(self)@
            }),
    {
        if index < self.schedulers.len() {
            let ghost was = self.schedulers@;
            proof {
                assert forall|x: AgentScheduler<B>| #[trigger]
                    parts_view(was.update(index as int, x)) == parts_view(was).update(
                        index as int,
                        x@,
                    ) by {
                    assert(parts_view(was.update(index as int, x)) =~= parts_view(was).update(
                        index as int,
                        x@,
                    ));
                }
            }
            Some(&mut self.schedulers[index])
        } else {
            None
        }
    }

    /// The scheduler that is known to have a process.
    pub fn owner_of(&self, pid: AgentPid) -> (r: Option<usize>)
        ensures
            r is Some <==> self@.owner.dom().contains(pid.0),
            r matches Some(i) ==> i == self@.owner[pid.0],
    {
        match self.pid_owner.get(&pid.raw()) {
            Some(i) => Some(*i),
            None => None,
        }
    }

    /// Starts a process on the scheduler whose turn it is.
    pub fn spawn(&mut self, behavior: B, args: Json) -> (r: Result<AgentPid, Reason>)
        requires
            old(self).wf(),
        ensures
            final(self).wf(),
            final(self)@.spawn_at == if old(self)@.spawn_at + 1 < old(self)@.parts.len() {
                (old(self)@.spawn_at + 1) as usize
            } else {
                0
            },
            spawned_on(
                old(self)@,
                old(self)@.spawn_at,
                behavior,
                args,
                (ClusterV { spawn_at: old(self)@.spawn_at, ..final(self)@ }),
                r,
            ),
    {
        let idx: usize = self.next_spawn_partition;
        let count: usize = self.schedulers.len();
        self.next_spawn_partition = if idx < count - 1 {
            idx + 1
        } else {
            0
        };
        self.spawn_on(idx, behavior, args)
    }

    /// Starts a process on a scheduler.
    pub fn spawn_on(&mut self, partition: usize, behavior: B, args: Json) -> (r: Result<
        AgentPid,
        Reason,
    >)
        requires
            old(self).wf(),
        ensures
            final(self).wf(),
            spawned_on(old(self)@, partition, behavior, args, final(self)@, r),
    {
        let ghost c0 = self@;
        if partition >= self.schedulers.len() {
            let n: String = u64_to_text(partition as u64);
            return Err(Reason::Custom(concat2("invalid partition ", n.as_str())));
        }
        let next: u64 = self.next_pid;
        let ghost before = self.schedulers@;
        let s = &mut self.schedulers[partition];
        s.registry.set_next_pid(next);
        let ghost part0 = s@;
        let r: Result<AgentPid, Reason> = s.registry.spawn(behavior, args);
        let after: u64 = s.registry.next_pid();
        let ghost part1 = s@;
        self.next_pid = after;
        proof {
            assert(self@.parts =~= c0.parts.update(partition as int, part1));
            assert(part0 == with_next(c0.parts[partition as int], c0.next));
        }
        match r {
            Ok(pid) => {
                self.pid_owner.insert(pid.raw(), partition);
                proof {
                    let st = choose|st: B::State| #[trigger]
                        process::fresh_process(pid, behavior, st) == part1.reg.procs[pid.0]
                            && call_ensures(
                            B::init,
                            (&behavior, args),
                            Ok::<B::State, Reason>(st),
                        );
                    assert(part1 == scheduler::with_process(
                        with_next(c0.parts[partition as int], registry::pid_after(c0.next)),
                        pid,
                        process::fresh_process(pid, behavior, st),
                    ));
                }
                Ok(pid)
            },
            Err(e) => {
                assert(part1 == with_next(
                    c0.parts[partition as int],
                    registry::pid_after(c0.next),
                ));
                Err(e)
            },
        }
    }

    /// Finds out again where each process is.
    fn reconcile_pid_map(&mut self)
        requires
            old(self).wf(),
        ensures
            final(self).wf(),
            final(self)@ == reconciled(old(self)@),
            final(self).schedulers == old(self).schedulers,
    {
        let ghost parts = self@.parts;
        let mut owner: AssocMap<u64, usize> = AssocMap::new();
        let mut i: usize = 0;
        assert(parts.take(0) =~= Seq::<SchedV<B>>::empty());
        assert(owner@ =~= owners(parts.take(0)));
        while i < self.schedulers.len()
            invariant
                i <= self.schedulers@.len(),
                self.wf(),
                parts == parts_view(self.schedulers@),
                owner@ == owners(parts.take(i as int)),
            decreases self.schedulers@.len() - i,
        {
            let ghost before = owner@;
            let ghost now = parts.take(i + 1);
            assert(now.drop_last() =~= parts.take(i as int));
            assert(now.last() == self.schedulers@[i as int]@);
            let pids: Vec<AgentPid> = self.schedulers[i].registry.pids();
            let ghost dom = now.last().reg.procs.dom();
            let mut j: usize = 0;
            while j < pids.len()
                invariant
                    j <= pids@.len(),
                    forall|k: u64| #[trigger]
                        owner@.dom().contains(k) <==> before.dom().contains(k) || exists|a: int|
                            0 <= a < j && (#[trigger] pids@[a]).0 == k,
                    forall|a: int| 0 <= a < j ==> owner@[(#[trigger] pids@[a]).0] == i,
                    forall|k: u64| #[trigger]
                        before.dom().contains(k) && !(exists|a: int|
                            0 <= a < j && (#[trigger] pids@[a]).0 == k) ==> owner@[k] == before[k],
                decreases pids@.len() - j,
            {
                let ghost had = owner@;
                owner.insert(pids[j].raw(), i);
                proof {
                    assert forall|k: u64| #[trigger] owner@.dom().contains(k) <==> before.dom().contains(
                        k,
                    ) || exists|a: int| 0 <= a < j + 1 && (#[trigger] pids@[a]).0 == k by {
                        if k == pids@[j as int].0 {
                            assert(pids@[j as int].0 == k);
                        }
                    }
                }
                j += 1;
            }
            proof {
                let goal = owners(now);
                assert forall|k: u64| owner@.dom().contains(k) == goal.dom().contains(k) by {
                    if dom.contains(k) {
                        assert(pids@.contains(AgentPid(k)));
                        let a = choose|a: int| 0 <= a < pids@.len() && pids@[a] == AgentPid(k);
                        assert(pids@[a].0 == k);
                    }
                    if exists|a: int| 0 <= a < pids@.len() && (#[trigger] pids@[a]).0 == k {
                        let a = choose|a: int| 0 <= a < pids@.len() && (#[trigger] pids@[a]).0 == k;
                        assert(pids@.contains(pids@[a]));
                    }
                }
                assert forall|k: u64| owner@.dom().contains(k) implies owner@[k] == goal[k] by {
                    if dom.contains(k) {
                        assert(pids@.contains(AgentPid(k)));
                        let a = choose|a: int| 0 <= a < pids@.len() && pids@[a] == AgentPid(k);
                        assert(owner@[pids@[a].0] == i);
                    } else {
                        if exists|a: int| 0 <= a < pids@.len() && (#[trigger] pids@[a]).0 == k {
                            let a = choose|a: int|
                                0 <= a < pids@.len() && (#[trigger] pids@[a]).0 == k;
                            assert(pids@.contains(pids@[a]));
                        }
                        assert(before.dom().contains(k));
                    }
                }
                assert(owner@ =~= goal);
            }
            i += 1;
        }
        assert(parts.take(i as int) =~= parts);
        self.pid_owner = owner;
    }

    /// Queues a process on the scheduler that has it.
    pub fn enqueue(&mut self, pid: AgentPid) -> (r: Result<(), String>)
        requires
            old(self).wf(),
        ensures
            final(self).wf(),
            ({
                let d = reconciled(old(self)@);
                if d.owner.dom().contains(pid.0) {
                    let i = d.owner[pid.0] as int;
                    r is Ok && final(self)@ == (ClusterV {
                        parts: d.parts.update(i, scheduler::enqueued(d.parts[i], pid)),
                        ..d
                    })
                } else {
                    (r matches Err(e) && e@ == nowhere(pid)) && final(self)@ == d
                }
            }),
    {
        self.reconcile_pid_map();
        let ghost d = self@;
        let idx: usize = match self.pid_owner.get(&pid.raw()) {
            Some(i) => *i,
            None => {
                return Err(not_in_cluster(pid));
            },
        };
        let n: usize = self.schedulers.len();
        proof {
            lemma_owner_has(d.parts, pid.0);
        }
        let s = &mut self.schedulers[idx];
        s.enqueue(pid);
        let ghost part = s@;
        assert(self@.parts =~= d.parts.update(idx as int, part));
        Ok(())
    }

    /// Sends a message to the scheduler that has its receiver.
    pub fn send(&mut self, to: AgentPid, msg: Message) -> (r: Result<(), String>)
        requires
            old(self).wf(),
        ensures
            final(self).wf(),
            final(self)@ == delivered(old(self)@, to, msg),
            r is Ok <==> owners(old(self)@.parts).dom().contains(to.0),
            r matches Err(e) ==> e@ == nowhere(to),
            final(self).schedulers@.len() == old(self).schedulers@.len(),
    {
        self.reconcile_pid_map();
        let ghost d = self@;
        let idx: usize = match self.pid_owner.get(&to.raw()) {
            Some(i) => *i,
            None => {
                return Err(not_in_cluster(to));
            },
        };
        let n: usize = self.schedulers.len();
        proof {
            lemma_owner_has(d.parts, to.0);
        }
        let s = &mut self.schedulers[idx];
        let r: Result<(), String> = s.send(to, msg);
        let ghost part = s@;
        assert(self@.parts =~= d.parts.update(idx as int, part));
        match r {
            Ok(()) => Ok(()),
            Err(e) => Err(e),
        }
    }

    /// Delivers what the schedulers could not, and tells how many messages found their way.
    fn route_outbound_messages(&mut self) -> (r: usize)
        requires
            old(self).wf(),
        ensures
            final(self).wf(),
            final(self)@ == routed(old(self)@),
            r == routed_count(old(self)@),
    {
        let ghost c0 = self@;
        let mut msgs: Vec<(AgentPid, Message)> = Vec::new();
        let mut i: usize = 0;
        let n: usize = self.schedulers.len();
        assert(c0.parts.take(0) =~= Seq::<SchedV<B>>::empty());
        assert(msgs@ =~= outbound_of(c0.parts.take(0)));
        while i < n
            invariant
                i <= n,
                n == self.schedulers@.len(),
                self.wf(),
                self@ == (ClusterV { parts: self@.parts, ..c0 }),
                c0.parts.len() == n,
                forall|j: int| 0 <= j < i ==> #[trigger] self@.parts[j] == drained(c0.parts)[j],
                forall|j: int| i <= j < n ==> #[trigger] self@.parts[j] == c0.parts[j],
                msgs@ == outbound_of(c0.parts.take(i as int)),
            decreases n - i,
        {
            let ghost before = self@.parts;
            let ghost got = msgs@;
            assert(before[i as int] == c0.parts[i as int]);
            assert(c0.parts.take(i + 1).drop_last() =~= c0.parts.take(i as int));
            let s = &mut self.schedulers[i];
            let mut out: Vec<(AgentPid, Message)> = s.drain_outbound_messages();
            let ghost part = s@;
            let ghost taken = out@;
            msgs.append(&mut out);
            proof {
                assert(self@.parts =~= before.update(i as int, part));
                assert(msgs@ =~= got + taken);
            }
            i += 1;
        }
        proof {
            assert(self@.parts =~= drained(c0.parts));
            assert(c0.parts.take(n as int) =~= c0.parts);
        }
        let ghost d = self@;
        let ghost all = msgs@;
        let total: usize = msgs.len();
        let mut count: usize = 0;
        assert(all.take(0) =~= Seq::<(AgentPid, Message)>::empty());
        for m in it: msgs
            invariant
                it.seq() == all,
                self.wf(),
                total == all.len(),
                count <= it.index(),
                self@ == all_delivered(d, all.take(it.index())),
                count == deliverable(d, all.take(it.index())),
        {
            let ghost k = it.index();
            assert(all.take(k + 1).drop_last() =~= all.take(k));
            assert(all.take(k + 1).last() == m);
            match self.send(m.0, m.1) {
                Ok(()) => {
                    count = count + 1;
                },
                Err(_) => {},
            }
        }
        assert(all.take(all.len() as int) =~= all);
        count
    }

    /// Gives every scheduler a turn, then delivers what crosses over. True where anything was
    /// done.
    pub fn tick(&mut self) -> (r: bool)
        requires
            old(self).wf(),
        ensures
            final(self).wf(),
            exists|trace: Seq<ClusterV<B>>, works: Seq<bool>| #[trigger]
                round(old(self)@, trace, works) && works.len() == old(self)@.parts.len()
                    && final(self)@ == round_done(old(self)@, trace, works) && r == (works.contains(
                    true,
                ) || routed_count(
                    (ClusterV { tick_at: final(self)@.tick_at, ..trace.last() }),
                ) > 0),
    {
        let ghost c0 = self@;
        let count: usize = self.schedulers.len();
        let first: usize = self.next_tick_partition;
        let mut did_work: bool = false;
        let ghost mut trace: Seq<ClusterV<B>> = seq![c0];
        let ghost mut works: Seq<bool> = Seq::empty();
        let mut k: usize = 0;
        while k < count
            invariant
                k <= count,
                count == self.schedulers@.len(),
                count == c0.parts.len(),
                first == c0.tick_at,
                first < count,
                first == self.next_tick_partition,
                self.wf(),
                works.len() == k,
                round(c0, trace, works),
                trace.last() == self@,
                did_work == works.contains(true),
            decreases count - k,
        {
            let idx: usize = if first < count - k {
                first + k
            } else {
                first - (count - k)
            };
            let ghost before = self@;
            let next: u64 = self.next_pid;
            let s = &mut self.schedulers[idx];
            s.registry.set_next_pid(next);
            let worked: bool = s.tick();
            let after: u64 = s.registry.next_pid();
            let ghost part = s@;
            self.next_pid = after;
            proof {
                assert(self@.parts =~= before.parts.update(idx as int, part));
                assert(idx == turn_at(c0.tick_at, k as int, c0.parts.len()));
                assert(scheduler::ticked(
                    with_next(before.parts[idx as int], before.next),
                    part,
                    worked,
                ));
                assert(part_ticked(before, idx as int, self@, worked));
                let t2 = trace.push(self@);
                let w2 = works.push(worked);
                assert forall|j: int| 0 <= j < w2.len() implies part_ticked(
                    #[trigger] t2[j],
                    turn_at(c0.tick_at, j, c0.parts.len()),
                    t2[j + 1],
                    w2[j],
                ) by {
                    if j < k {
                        assert(t2[j] == trace[j]);
                        assert(t2[j + 1] == trace[j + 1]);
                        assert(w2[j] == works[j]);
                    } else {
                        assert(t2[j] == before);
                    }
                }
                assert(w2.contains(true) == (works.contains(true) || worked)) by {
                    if works.contains(true) {
                        let j = choose|j: int| 0 <= j < works.len() && works[j] == true;
                        assert(w2[j] == true);
                    }
                    if worked {
                        assert(w2[k as int] == true);
                    }
                    if w2.contains(true) && !worked {
                        let j = choose|j: int| 0 <= j < w2.len() && w2[j] == true;
                        assert(works[j] == true);
                    }
                }
                trace = t2;
                works = w2;
            }
            if worked {
                did_work = true;
            }
            k += 1;
        }
        self.next_tick_partition = if first + 1 < count {
            first + 1
        } else {
            0
        };
        let ghost mid = self@;
        assert(mid == (ClusterV { tick_at: mid.tick_at, ..trace.last() }));
        let found: usize = self.route_outbound_messages();
        self.reconcile_pid_map();
        proof {
            lemma_routed_keeps(mid);
            assert(round(c0, trace, works));
        }
        did_work || found > 0
    }
}

proof fn lemma_delivered_keeps<B: AgentBehavior>(c: ClusterV<B>, msgs: Seq<(AgentPid, Message)>)
    ensures
        all_delivered(c, msgs).tick_at == c.tick_at,
    decreases msgs.len(),
{
    if msgs.len() > 0 {
        lemma_delivered_keeps(c, msgs.drop_last());
    }
}

proof fn lemma_routed_keeps<B: AgentBehavior>(c: ClusterV<B>)
    ensures
        routed(c).tick_at == c.tick_at,
{
    lemma_delivered_keeps(ClusterV { parts: drained(c.parts), ..c }, outbound_of(c.parts));
}

/// A process is started on a scheduler: where there is such a one, and the behavior does not
/// refuse, the process is there, and the cluster knows where it is.
pub open spec fn spawned_on<B: AgentBehavior>(
    c0: ClusterV<B>,
    partition: usize,
    behavior: B,
    args: Json,
    c1: ClusterV<B>,
    r: Result<AgentPid, Reason>,
) -> bool {
    if partition >= c0.parts.len() {
        &&& c1 == c0
        &&& r matches Err(e) && e@ == crate::agent_rt::types::ReasonV::Custom(
            "invalid partition "@ + text::decimal(partition as nat),
        )
    } else {
        let pid = AgentPid(c0.next);
        let s = with_next(c0.parts[partition as int], registry::pid_after(c0.next));
        match r {
            Ok(p) => p == pid && exists|st: B::State| #[trigger]
                call_ensures(B::init, (&behavior, args), Ok::<B::State, Reason>(st)) && c1 == (
                ClusterV {
                    parts: c0.parts.update(
                        partition as int,
                        scheduler::with_process(s, pid, process::fresh_process(pid, behavior, st)),
                    ),
                    owner: c0.owner.insert(pid.0, partition),
                    next: registry::pid_after(c0.next),
                    ..c0
                }),
            Err(e) => call_ensures(B::init, (&behavior, args), Err::<B::State, Reason>(e)) && c1 == (
            ClusterV {
                parts: c0.parts.update(partition as int, s),
                next: registry::pid_after(c0.next),
                ..c0
            }),
        }
    }
}

// ---------------------------------------------------------------------------
// What holds of every cluster
// ---------------------------------------------------------------------------
/// A message to a process of the cluster arrives at the scheduler that has it, and only there.
pub proof fn law_message_arrives<B: AgentBehavior>(c: ClusterV<B>, to: AgentPid, msg: Message)
    requires
        owners(c.parts).dom().contains(to.0),
        c.parts.len() <= usize::MAX,
    ensures
        ({
            let i = owners(c.parts)[to.0] as int;
            let d = delivered(c, to, msg);
            &&& 0 <= i < c.parts.len()
            &&& d.parts[i].reg.procs[to.0].mailbox == c.parts[i].reg.procs[to.0].mailbox.push(msg)
            &&& forall|j: int| 0 <= j < c.parts.len() && j != i ==> d.parts[j] == c.parts[j]
        }),
{
    lemma_owner_has(c.parts, to.0);
}

/// A process that is on just one scheduler is known to be there.
pub proof fn law_owner_is_known<B: AgentBehavior>(parts: Seq<SchedV<B>>, k: u64, i: int)
    requires
        0 <= i < parts.len() <= usize::MAX,
        parts[i].reg.procs.dom().contains(k),
        forall|j: int| 0 <= j < parts.len() && j != i ==> !(#[trigger] parts[j]).reg.procs.dom().contains(k),
    ensures
        owners(parts).dom().contains(k),
        owners(parts)[k] == i,
    decreases parts.len(),
{
    let t = parts.drop_last();
    assert(parts.last() == parts[parts.len() - 1]);
    if i < t.len() {
        assert forall|j: int| 0 <= j < t.len() && j != i implies !(
        #[trigger] t[j]).reg.procs.dom().contains(k) by {
            assert(t[j] == parts[j]);
        }
        law_owner_is_known(t, k, i);
    }
}

/// In a round every scheduler has its turn, and none has it twice.
pub proof fn law_each_has_its_turn(first: usize, count: nat, i: int)
    requires
        first < count,
        0 <= i < count,
    ensures
        exists|k: int| 0 <= k < count && #[trigger] turn_at(first, k, count) == i,
        forall|k: int, l: int|
            0 <= k < count && 0 <= l < count && k != l ==> #[trigger] turn_at(first, k, count)
                != #[trigger] turn_at(first, l, count),
        forall|k: int| 0 <= k < count ==> 0 <= #[trigger] turn_at(first, k, count) < count,
        turn_at(first, 0, count) == first,
{
    let k = if i >= first {
        i - first
    } else {
        i - first + count
    };
    assert(turn_at(first, k, count) == i);
}

/// The processes of schedulers are the same, and no mailbox has lost a message.
pub open spec fn parts_keep<B: AgentBehavior>(a: Seq<SchedV<B>>, b: Seq<SchedV<B>>) -> bool {
    &&& a.len() == b.len()
    &&& forall|j: int|
        0 <= j < a.len() ==> (#[trigger] b[j]).reg.procs.dom() == a[j].reg.procs.dom()
    &&& forall|j: int, k: u64, m: Message|
        0 <= j < a.len() && a[j].reg.procs.dom().contains(k) && a[j].reg.procs[k].mailbox.contains(
            m,
        ) ==> #[trigger] b[j].reg.procs[k].mailbox.contains(m)
}

proof fn lemma_owners_same<B: AgentBehavior>(a: Seq<SchedV<B>>, b: Seq<SchedV<B>>)
    requires
        a.len() == b.len(),
        forall|j: int|
            0 <= j < a.len() ==> (#[trigger] b[j]).reg.procs.dom() == a[j].reg.procs.dom(),
    ensures
        owners(a) == owners(b),
    decreases a.len(),
{
    if a.len() > 0 {
        let x = a.drop_last();
        let y = b.drop_last();
        assert forall|j: int| 0 <= j < x.len() implies (#[trigger] y[j]).reg.procs.dom()
            == x[j].reg.procs.dom() by {
            assert(y[j] == b[j]);
        }
        lemma_owners_same(x, y);
        assert(b[b.len() - 1].reg.procs.dom() == a[a.len() - 1].reg.procs.dom());
        assert(owners(a) =~= owners(b));
    } else {
        assert(owners(a) =~= owners(b));
    }
}

proof fn lemma_delivery_keeps<B: AgentBehavior>(c: ClusterV<B>, to: AgentPid, msg: Message)
    requires
        c.parts.len() <= usize::MAX,
    ensures
        parts_keep(c.parts, delivered(c, to, msg).parts),
        owners(delivered(c, to, msg).parts) == owners(c.parts),
        owners(c.parts).dom().contains(to.0) ==> delivered(c, to, msg).parts[owners(
            c.parts,
        )[to.0] as int].reg.procs[to.0].mailbox.contains(msg),
{
    let d = delivered(c, to, msg);
    if owners(c.parts).dom().contains(to.0) {
        lemma_owner_has(c.parts, to.0);
        let i = owners(c.parts)[to.0] as int;
        scheduler::law_sent_arrives(c.parts[i], to, msg);
        let q = c.parts[i].reg.procs[to.0].mailbox;
        assert(q.push(msg)[q.len() as int] == msg);
        assert forall|j: int, k: u64, m: Message|
            0 <= j < c.parts.len() && c.parts[j].reg.procs.dom().contains(k)
                && c.parts[j].reg.procs[k].mailbox.contains(m) implies #[trigger] d.parts[j].reg.procs[k].mailbox.contains(
        m) by {
            if j == i && k == to.0 {
                let x = choose|x: int| 0 <= x < q.len() && q[x] == m;
                assert(q.push(msg)[x] == m);
            }
        }
    }
    lemma_owners_same(c.parts, d.parts);
}

proof fn lemma_all_delivered<B: AgentBehavior>(
    c: ClusterV<B>,
    msgs: Seq<(AgentPid, Message)>,
    i: int,
)
    requires
        c.parts.len() <= usize::MAX,
        0 <= i < msgs.len(),
        owners(c.parts).dom().contains(msgs[i].0.0),
    ensures
        all_delivered(c, msgs).parts[owners(
            c.parts,
        )[msgs[i].0.0] as int].reg.procs[msgs[i].0.0].mailbox.contains(msgs[i].1),
    decreases msgs.len(),
{
    let front = msgs.drop_last();
    let e = all_delivered(c, front);
    lemma_all_keep(c, front);
    lemma_delivery_keeps(e, msgs.last().0, msgs.last().1);
    lemma_owner_has(c.parts, msgs[i].0.0);
    if i < front.len() {
        assert(front[i] == msgs[i]);
        lemma_all_delivered(c, front, i);
        let j = owners(c.parts)[msgs[i].0.0] as int;
        let k = msgs[i].0.0;
        assert(e.parts[j].reg.procs.dom().contains(k));
        let d = all_delivered(c, msgs);
        assert(d.parts[j].reg.procs[k].mailbox.contains(msgs[i].1));
    }
}

proof fn lemma_all_keep<B: AgentBehavior>(c: ClusterV<B>, msgs: Seq<(AgentPid, Message)>)
    requires
        c.parts.len() <= usize::MAX,
    ensures
        parts_keep(c.parts, all_delivered(c, msgs).parts),
        owners(all_delivered(c, msgs).parts) == owners(c.parts),
    decreases msgs.len(),
{
    if msgs.len() > 0 {
        let front = msgs.drop_last();
        let e = all_delivered(c, front);
        lemma_all_keep(c, front);
        lemma_delivery_keeps(e, msgs.last().0, msgs.last().1);
        let d = all_delivered(c, msgs);
        assert forall|j: int, k: u64, m: Message|
            0 <= j < c.parts.len() && c.parts[j].reg.procs.dom().contains(k)
                && c.parts[j].reg.procs[k].mailbox.contains(m) implies #[trigger] d.parts[j].reg.procs[k].mailbox.contains(
        m) by {
            assert(e.parts[j].reg.procs[k].mailbox.contains(m));
            assert(e.parts[j].reg.procs.dom().contains(k));
        }
    }
}

proof fn lemma_outbound_has<B: AgentBehavior>(
    parts: Seq<SchedV<B>>,
    i: int,
    e: (AgentPid, Message),
)
    requires
        0 <= i < parts.len(),
        parts[i].outbound.contains(e),
    ensures
        outbound_of(parts).contains(e),
    decreases parts.len(),
{
    let front = parts.drop_last();
    let before = outbound_of(front);
    let all = outbound_of(parts);
    if i < front.len() {
        assert(front[i] == parts[i]);
        lemma_outbound_has(front, i, e);
        let j = choose|j: int| 0 <= j < before.len() && before[j] == e;
        assert(all[j] == e);
    } else {
        let o = parts[i].outbound;
        let j = choose|j: int| 0 <= j < o.len() && o[j] == e;
        assert(all[before.len() + j] == e);
    }
}

/// Messages find their way from one scheduler to another: what a scheduler could not deliver is in
/// the mailbox of its receiver once messages were routed, wherever in the cluster that is, and waits
/// nowhere any more.
pub proof fn law_messages_cross_over<B: AgentBehavior>(
    c: ClusterV<B>,
    i: int,
    to: AgentPid,
    msg: Message,
    j: int,
)
    requires
        0 <= i < c.parts.len() <= usize::MAX,
        c.parts[i].outbound.contains((to, msg)),
        0 <= j < c.parts.len(),
        c.parts[j].reg.procs.dom().contains(to.0),
        forall|k: int|
            0 <= k < c.parts.len() && k != j ==> !(#[trigger] c.parts[k]).reg.procs.dom().contains(
                to.0,
            ),
    ensures
        routed(c).parts.len() == c.parts.len(),
        routed(c).parts[j].reg.procs[to.0].mailbox.contains(msg),
        drained(c.parts)[i].outbound.len() == 0,
{
    let d = ClusterV { parts: drained(c.parts), ..c };
    let msgs = outbound_of(c.parts);
    lemma_outbound_has(c.parts, i, (to, msg));
    let x = choose|x: int| 0 <= x < msgs.len() && msgs[x] == (to, msg);
    assert forall|k: int| 0 <= k < d.parts.len() && k != j implies !(
    #[trigger] d.parts[k]).reg.procs.dom().contains(to.0) by {
        assert(d.parts[k].reg == c.parts[k].reg);
    }
    assert(d.parts[j].reg == c.parts[j].reg);
    law_owner_is_known(d.parts, to.0, j);
    lemma_all_delivered(d, msgs, x);
    lemma_all_keep(d, msgs);
}

/// In a round every scheduler works off its processes when its turn has come.
pub proof fn law_scheduler_ticks_in_turn<B: AgentBehavior>(
    c: ClusterV<B>,
    trace: Seq<ClusterV<B>>,
    works: Seq<bool>,
    k: int,
    i: int,
)
    requires
        round(c, trace, works),
        0 <= k < works.len(),
        turn_at(c.tick_at, k, c.parts.len()) == i,
    ensures
        exists|t: SchedV<B>| #[trigger]
            scheduler::ticked(with_next(trace[k].parts[i], trace[k].next), t, works[k]) && trace[k
                + 1].parts == trace[k].parts.update(i, t),
{
    assert(part_ticked(trace[k], i, trace[k + 1], works[k]));
}

/// While one scheduler works off its processes, no other changes.
pub proof fn law_turn_touches_one<B: AgentBehavior>(
    c0: ClusterV<B>,
    i: int,
    c1: ClusterV<B>,
    worked: bool,
    j: int,
)
    requires
        part_ticked(c0, i, c1, worked),
        0 <= i < c0.parts.len(),
        0 <= j < c0.parts.len(),
        j != i,
    ensures
        c1.parts.len() == c0.parts.len(),
        c1.parts[j] == c0.parts[j],
        c1.next == c1.parts[i].reg.next,
{
}

/// The next round begins with the next scheduler, and after the last with the first again.
pub proof fn law_next_begins<B: AgentBehavior>(
    c: ClusterV<B>,
    trace: Seq<ClusterV<B>>,
    works: Seq<bool>,
)
    requires
        trace.len() > 0,
        c.tick_at < c.parts.len() <= usize::MAX,
    ensures
        c.tick_at + 1 < c.parts.len() ==> round_done(c, trace, works).tick_at == c.tick_at + 1,
        c.tick_at + 1 == c.parts.len() ==> round_done(c, trace, works).tick_at == 0,
{
    let n = c.parts.len();
    let d = ClusterV {
        tick_at: if c.tick_at + 1 < n {
            (c.tick_at + 1) as usize
        } else {
            0
        },
        ..trace.last()
    };
    lemma_delivered_keeps(ClusterV { parts: drained(d.parts), ..d }, outbound_of(d.parts));
}

} // verus!
