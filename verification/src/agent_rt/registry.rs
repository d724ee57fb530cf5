//! The processes of a runtime, by id and by name.
use vstd::prelude::*;
use crate::agent_rt::process;
use crate::agent_rt::process::{AgentProcess, ProcV};
use crate::agent_rt::types::{AgentBehavior, AgentPid, PidSource, Reason};
use crate::json::Json;
use crate::util::assoc::AssocMap;

verus! {

/// The processes of a runtime.
pub struct AgentRegistry<B: AgentBehavior> {
    pids: PidSource,
    keys: Vec<u64>,
    processes: Vec<AgentProcess<B>>,
    names: AssocMap<String, AgentPid>,
}

/// What a registry is: the processes by the number of their id, the names, and the next id.
#[verifier::ext_equal]
pub struct RegV<B: AgentBehavior> {
    pub procs: Map<u64, ProcV<B>>,
    pub names: Map<Seq<char>, AgentPid>,
    pub next: u64,
}

/// The map that parallel lists of keys and processes stand for.
pub open spec fn procs_map<B: AgentBehavior>(
    keys: Seq<u64>,
    procs: Seq<AgentProcess<B>>,
) -> Map<u64, ProcV<B>> {
    Map::new(|k: u64| keys.contains(k), |k: u64| procs[keys.index_of(k)]@)
}

/// The id that follows `next`.
pub open spec fn pid_after(next: u64) -> u64 {
    if next == u64::MAX {
        0
    } else {
        (next + 1) as u64
    }
}

/// Every process has an id below the next one to be given out, so that the next one is new.
pub open spec fn below<B: AgentBehavior>(r: RegV<B>) -> bool {
    forall|k: u64| #[trigger] r.procs.dom().contains(k) ==> k < r.next
}

/// The names that do not stand for `pid`.
pub open spec fn names_without(names: Map<Seq<char>, AgentPid>, pid: AgentPid) -> Map<
    Seq<char>,
    AgentPid,
> {
    Map::new(|n: Seq<char>| names.dom().contains(n) && names[n] != pid, |n: Seq<char>| names[n])
}

impl<B: AgentBehavior> View for AgentRegistry<B> {
    type V = RegV<B>;

    closed spec fn view(&self) -> RegV<B> {
        RegV {
            procs: procs_map(self.keys@, self.processes@),
            names: self.names@,
            next: self.pids@,
        }
    }
}

proof fn lemma_index_of(keys: Seq<u64>, i: int)
    requires
        keys.no_duplicates(),
        0 <= i < keys.len(),
    ensures
        keys.contains(keys[i]),
        keys.index_of(keys[i]) == i,
{
}

impl<B: AgentBehavior> AgentRegistry<B> {
    /// Every key has its process, and no key occurs twice.
    pub closed spec fn wf(&self) -> bool {
        &&& self.keys@.len() == self.processes@.len()
        &&& self.keys@.no_duplicates()
    }

    /// Every process has an id below the next one to be given out.
    pub open spec fn pids_below(&self) -> bool {
        below(self@)
    }

    /// A registry without processes. Its ids start from the first one: registries beside each
    /// other get sources of their own, see [`AgentRegistry::with_pids`].
    pub fn new() -> (r: Self)
        ensures
            r.wf(),
            r@.procs == Map::<u64, ProcV<B>>::empty(),
            r@.names == Map::<Seq<char>, AgentPid>::empty(),
            r@.next == crate::agent_rt::types::FIRST_AGENT_PID,
    {
        Self::with_pids(PidSource::new())
    }

    /// A registry without processes; their ids come from the given source.
    pub fn with_pids(pids: PidSource) -> (r: Self)
        ensures
            r.wf(),
            r@.procs == Map::<u64, ProcV<B>>::empty(),
            r@.names == Map::<Seq<char>, AgentPid>::empty(),
            r@.next == pids@,
    {
        let r = AgentRegistry {
            pids,
            keys: Vec::new(),
            processes: Vec::new(),
            names: AssocMap::new(),
        };
        assert(r@.procs =~= Map::<u64, ProcV<B>>::empty());
        r
    }

    fn position(&self, k: u64) -> (r: usize)
        requires
            self.wf(),
        ensures
            r <= self.keys@.len(),
            r < self.keys@.len() <==> self@.procs.dom().contains(k),
            r < self.keys@.len() ==> self.keys@[r as int] == k && self.keys@.index_of(k) == r
                && self@.procs[k] == self.processes@[r as int]@,
    {
        let mut i: usize = 0;
        while i < self.keys.len()
            invariant
                self.wf(),
                i <= self.keys@.len(),
                forall|j: int| 0 <= j < i ==> #[trigger] self.keys@[j] != k,
            decreases self.keys@.len() - i,
        {
            if self.keys[i] == k {
                proof {
                    lemma_index_of(self.keys@, i as int);
                }
                return i;
            }
            i += 1;
        }
        i
    }

    /// Puts a process under its key, in place of one that was there.
    fn put(&mut self, k: u64, p: AgentProcess<B>)
        requires
            old(self).wf(),
        ensures
            final(self).wf(),
            final(self)@ == (RegV { procs: old(self)@.procs.insert(k, p@), ..old(self)@ }),
    {
        let i: usize = self.position(k);
        if i < self.keys.len() {
            self.processes.set(i, p);
            proof {
                assert forall|q: u64| #[trigger] self.keys@.contains(q) && q != k implies self@.procs[q]
                    == old(self)@.procs[q] by {
                    let a = self.keys@.index_of(q);
                    assert(self.keys@[a] == q);
                    assert(a != i);
                }
                assert(self@.procs =~= old(self)@.procs.insert(k, p@));
            }
        } else {
            self.keys.push(k);
            self.processes.push(p);
            proof {
                let n = old(self).keys@.len() as int;
                assert(self.keys@[n] == k);
                lemma_index_of(self.keys@, n);
                assert forall|q: u64| #[trigger] self.keys@.contains(q) implies q == k
                    || old(self).keys@.contains(q) && self@.procs[q] == old(self)@.procs[q] by {
                    if q != k {
                        let a = self.keys@.index_of(q);
                        assert(self.keys@[a] == q);
                        assert(old(self).keys@[a] == q);
                        lemma_index_of(old(self).keys@, a);
                        lemma_index_of(self.keys@, a);
                    }
                }
                assert forall|q: u64| #[trigger] old(self).keys@.contains(q) implies self.keys@.contains(q) by {
                    let a = old(self).keys@.index_of(q);
                    assert(self.keys@[a] == q);
                }
                assert(self@.procs =~= old(self)@.procs.insert(k, p@));
            }
        }
    }

    /// Starts a process. The behavior decides whether there is one; the id is used up either
    /// way.
    pub fn spawn(&mut self, behavior: B, args: Json) -> (r: Result<AgentPid, Reason>)
        requires
            old(self).wf(),
        ensures
            final(self).wf(),
            final(self)@.names == old(self)@.names,
            final(self)@.next == pid_after(old(self)@.next),
            r matches Ok(pid) ==> {
                &&& pid.0 == old(self)@.next
                &&& exists|st: B::State| #[trigger]
                    process::fresh_process(pid, behavior, st) == final(self)@.procs[pid.0] && call_ensures(
                        B::init,
                        (&behavior, args),
                        Ok::<B::State, Reason>(st),
                    )
                &&& final(self)@.procs == old(self)@.procs.insert(
                    pid.0,
                    final(self)@.procs[pid.0],
                )
            },
            r matches Err(e) ==> final(self)@.procs == old(self)@.procs && call_ensures(
                B::init,
                (&behavior, args),
                Err::<B::State, Reason>(e),
            ),
            old(self).pids_below() && old(self)@.next < u64::MAX ==> final(self).pids_below() && (
            r matches Ok(pid) ==> !old(self)@.procs.dom().contains(pid.0)),
    {
        match AgentProcess::new(&mut self.pids, behavior, args) {
            Ok(p) => {
                let pid: AgentPid = p.pid;
                self.put(pid.0, p);
                proof {
                    lemma_below(old(self)@, self@, pid.0);
                }
                Ok(pid)
            },
            Err(e) => {
                proof {
                    lemma_below(old(self)@, self@, old(self)@.next);
                }
                Err(e)
            },
        }
    }

    /// The process with the given id.
    pub fn lookup(&self, pid: &AgentPid) -> (r: Option<&AgentProcess<B>>)
        requires
            self.wf(),
        ensures
            r is Some <==> self@.procs.dom().contains(pid.0),
            r matches Some(p) ==> p@ == self@.procs[pid.0],
    {
        let i: usize = self.position(pid.0);
        if i < self.keys.len() {
            Some(&self.processes[i])
        } else {
            None
        }
    }

    /// The process with the given id, to change it. What is made of it stays under that id.
    pub fn lookup_mut(&mut self, pid: &AgentPid) -> (r: Option<&mut AgentProcess<B>>)
        requires
            old(self).wf(),
        ensures
            final(self).wf(),
            r is Some <==> old(self)@.procs.dom().contains(pid.0),
            r is None ==> final(self)@ == old(self)@,
            r matches Some(p) ==> p@ == old(self)@.procs[pid.0] && final(self)@ == (RegV {
                procs: old(self)@.procs.insert(pid.0, final(p)@),
                ..old(self)@
            }),
    {
        let i: usize = self.position(pid.0);
        if i < self.keys.len() {
            let ghost before = self@;
            let ghost keys = self.keys@;
            let ghost procs = self.processes@;
            proof {
                assert forall|x: AgentProcess<B>| #[trigger]
                    procs_map(keys, procs.update(i as int, x)) == before.procs.insert(pid.0, x@) by {
                    lemma_update_procs(keys, procs, i as int, x);
                }
            }
            Some(&mut self.processes[i])
        } else {
            None
        }
    }

    /// Takes a process out, with all the names that stand for it.
    pub fn remove(&mut self, pid: &AgentPid) -> (r: Option<AgentProcess<B>>)
        requires
            old(self).wf(),
        ensures
            final(self).wf(),
            r is Some <==> old(self)@.procs.dom().contains(pid.0),
            r matches Some(p) ==> p@ == old(self)@.procs[pid.0] && final(self)@ == removed(
                old(self)@,
                *pid,
            ),
            r is None ==> final(self)@ == old(self)@,
    {
        let i: usize = self.position(pid.0);
        if i < self.keys.len() {
            self.keys.remove(i);
            let p = self.processes.remove(i);
            proof {
                lemma_remove_procs(old(self).keys@, old(self).processes@, i as int);
            }
            self.drop_names(*pid);
            Some(p)
        } else {
            None
        }
    }

    /// Drops all names that stand for `pid`.
    fn drop_names(&mut self, pid: AgentPid)
        requires
            old(self).wf(),
        ensures
            final(self).wf(),
            final(self)@ == (RegV { names: names_without(old(self)@.names, pid), ..old(self)@ }),
    {
        let mut kept: AssocMap<String, AgentPid> = AssocMap::new();
        self.names.facts();
        let n: usize = self.names.len();
        let ghost ord = self.names.order();
        let ghost names = self.names@;
        let mut i: usize = 0;
        while i < n
            invariant
                i <= n,
                n == ord.len(),
                ord == self.names.order(),
                names == self.names@,
                crate::util::assoc::distinct_keys(ord),
                forall|q: Seq<char>| #[trigger]
                    kept@.dom().contains(q) <==> exists|j: int|
                        0 <= j < i && (#[trigger] ord[j]).0@ == q && ord[j].1 != pid,
                forall|q: Seq<char>| #[trigger] kept@.dom().contains(q) ==> kept@[q] == names[q],
            decreases n - i,
        {
            let (name, p) = self.names.entry(i);
            let ghost before = kept@;
            if *p != pid {
                kept.insert(name.clone(), *p);
            }
            assert forall|q: Seq<char>| #[trigger] kept@.dom().contains(q) <==> exists|j: int|
                0 <= j < i + 1 && (#[trigger] ord[j]).0@ == q && ord[j].1 != pid by {
                if before.dom().contains(q) {
                    let j = choose|j: int| 0 <= j < i && (#[trigger] ord[j]).0@ == q && ord[j].1 != pid;
                    assert(ord[j].0@ == q);
                }
                if kept@.dom().contains(q) && !before.dom().contains(q) {
                    assert(ord[i as int].0@ == q);
                }
            }
            i += 1;
        }
        proof {
            let goal = names_without(names, pid);
            assert forall|q: Seq<char>| kept@.dom().contains(q) == goal.dom().contains(q) by {
                if goal.dom().contains(q) {
                    let j = choose|j: int| 0 <= j < ord.len() && (#[trigger] ord[j]).0@ == q;
                    assert(ord[j].0@ == q && ord[j].1 != pid);
                }
                if kept@.dom().contains(q) {
                    let j = choose|j: int| 0 <= j < n && (#[trigger] ord[j]).0@ == q && ord[j].1 != pid;
                    assert(names.dom().contains(ord[j].0@));
                }
            }
            assert(kept@ =~= goal);
        }
        self.names = kept;
    }

    /// The id of the next process.
    pub fn next_pid(&self) -> (r: u64)
        ensures
            r == self@.next,
    {
        self.pids.upcoming()
    }

    /// Says which id the next process has.
    pub fn set_next_pid(&mut self, next: u64)
        requires
            old(self).wf(),
        ensures
            final(self).wf(),
            final(self)@ == (RegV { next, ..old(self)@ }),
    {
        self.pids = PidSource::starting_at(next);
    }

    /// Lets a name stand for a process id.
    pub fn register_name(&mut self, name: &str, pid: AgentPid)
        requires
            old(self).wf(),
        ensures
            final(self).wf(),
            final(self)@ == (RegV { names: old(self)@.names.insert(name@, pid), ..old(self)@ }),
    {
        self.names.insert(name.to_owned(), pid);
    }

    /// Drops a name.
    pub fn unregister_name(&mut self, name: &str)
        requires
            old(self).wf(),
        ensures
            final(self).wf(),
            final(self)@ == (RegV { names: old(self)@.names.remove(name@), ..old(self)@ }),
    {
        self.names.remove_str(name);
    }

    /// The process id that a name stands for.
    pub fn lookup_name(&self, name: &str) -> (r: Option<AgentPid>)
        ensures
            r is Some <==> self@.names.dom().contains(name@),
            r matches Some(p) ==> p == self@.names[name@],
    {
        match self.names.get_str(name) {
            Some(p) => Some(*p),
            None => None,
        }
    }

    /// How many processes there are.
    pub fn count(&self) -> (r: usize)
        requires
            self.wf(),
        ensures
            r == self@.procs.dom().len(),
    {
        proof {
            self.keys@.unique_seq_to_set();
            assert(self@.procs.dom() =~= self.keys@.to_set());
        }
        self.keys.len()
    }

    /// The ids of all processes, each once.
    pub fn pids(&self) -> (r: Vec<AgentPid>)
        requires
            self.wf(),
        ensures
            r@.no_duplicates(),
            forall|p: AgentPid| #[trigger] r@.contains(p) <==> self@.procs.dom().contains(p.0),
    {
        let mut out: Vec<AgentPid> = Vec::new();
        let mut i: usize = 0;
        while i < self.keys.len()
            invariant
                i <= self.keys@.len(),
                out@.len() == i,
                forall|j: int| 0 <= j < i ==> (#[trigger] out@[j]).0 == self.keys@[j],
            decreases self.keys@.len() - i,
        {
            out.push(AgentPid(self.keys[i]));
            i += 1;
        }
        proof {
            assert forall|p: AgentPid| #[trigger] out@.contains(p) <==> self@.procs.dom().contains(p.0) by {
                if out@.contains(p) {
                    let j = choose|j: int| 0 <= j < out@.len() && out@[j] == p;
                    assert(self.keys@[j] == p.0);
                }
                if self.keys@.contains(p.0) {
                    let j = choose|j: int| 0 <= j < self.keys@.len() && self.keys@[j] == p.0;
                    assert(out@[j] == p);
                }
            }
        }
        out
    }
}

proof fn lemma_below<B: AgentBehavior>(before: RegV<B>, after: RegV<B>, k: u64)
    requires
        k == before.next,
        after.next == pid_after(before.next),
        forall|q: u64| #[trigger]
            after.procs.dom().contains(q) ==> q == k || before.procs.dom().contains(q),
    ensures
        (forall|q: u64| #[trigger] before.procs.dom().contains(q) ==> q < before.next)
            && before.next < u64::MAX ==> (forall|q: u64| #[trigger]
            after.procs.dom().contains(q) ==> q < after.next),
{
}

/// A registry without the process `pid` and its names.
pub open spec fn removed<B: AgentBehavior>(r: RegV<B>, pid: AgentPid) -> RegV<B> {
    RegV { procs: r.procs.remove(pid.0), names: names_without(r.names, pid), next: r.next }
}

proof fn lemma_update_procs<B: AgentBehavior>(
    keys: Seq<u64>,
    procs: Seq<AgentProcess<B>>,
    i: int,
    x: AgentProcess<B>,
)
    requires
        keys.no_duplicates(),
        keys.len() == procs.len(),
        0 <= i < keys.len(),
    ensures
        procs_map(keys, procs.update(i, x)) == procs_map(keys, procs).insert(keys[i], x@),
{
    let a = procs_map(keys, procs.update(i, x));
    let b = procs_map(keys, procs).insert(keys[i], x@);
    lemma_index_of(keys, i);
    assert forall|q: u64| #[trigger] keys.contains(q) implies a[q] == b[q] by {
        let j = keys.index_of(q);
        assert(keys[j] == q);
        if q != keys[i] {
            assert(j != i);
        }
    }
    assert(a =~= b);
}

proof fn lemma_remove_procs<B: AgentBehavior>(keys: Seq<u64>, procs: Seq<AgentProcess<B>>, i: int)
    requires
        keys.no_duplicates(),
        keys.len() == procs.len(),
        0 <= i < keys.len(),
    ensures
        keys.remove(i).no_duplicates(),
        procs_map(keys.remove(i), procs.remove(i)) == procs_map(keys, procs).remove(keys[i]),
{
    let ks = keys.remove(i);
    let a = procs_map(ks, procs.remove(i));
    let b = procs_map(keys, procs).remove(keys[i]);
    assert forall|x: int| 0 <= x < ks.len() implies #[trigger] ks[x] == keys[if x < i { x } else { x + 1 }] by {}
    assert(ks.no_duplicates());
    assert forall|q: u64| #[trigger] ks.contains(q) <==> keys.contains(q) && q != keys[i] by {
        if ks.contains(q) {
            let x = ks.index_of(q);
            assert(ks[x] == q);
        }
        if keys.contains(q) && q != keys[i] {
            let y = keys.index_of(q);
            assert(keys[y] == q);
            let x = if y < i { y } else { y - 1 };
            assert(ks[x] == q);
        }
    }
    assert forall|q: u64| #[trigger] ks.contains(q) implies a[q] == b[q] by {
        let x = ks.index_of(q);
        let y = if x < i { x } else { x + 1 };
        assert(ks[x] == q && keys[y] == q);
        lemma_index_of(keys, y);
    }
    assert(a =~= b);
}

} // verus!
