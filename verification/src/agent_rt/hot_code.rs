//! Versions of behaviors, and which version each process runs.
use vstd::prelude::*;
use crate::agent_rt::error::{AgentRtError, ErrorV};
use crate::agent_rt::types::AgentPid;
use crate::util::assoc::{AssocMap, MapKey};
use crate::util::text;
use crate::util::text::{concat3, str_eq};

verus! {

/// One version of a behavior, and what makes one.
pub struct BehaviorVersion<F> {
    pub name: String,
    pub version: String,
    pub factory: F,
}

/// What a version is.
pub struct VersionV<F> {
    pub name: Seq<char>,
    pub version: Seq<char>,
    pub factory: F,
}

impl<F> View for BehaviorVersion<F> {
    type V = VersionV<F>;

    open spec fn view(&self) -> VersionV<F> {
        VersionV { name: self.name@, version: self.version@, factory: self.factory }
    }
}

/// Knows the versions of behaviors, the version that each process runs, and those that it ran
/// before.
pub struct HotCodeRegistry<F> {
    pub behaviors: AssocMap<String, Vec<BehaviorVersion<F>>>,
    pub process_versions: AssocMap<u64, (String, String)>,
    pub version_history: AssocMap<u64, Vec<String>>,
}

/// What a registry of versions is.
#[verifier::ext_equal]
pub struct CodeV<F> {
    pub behaviors: Map<Seq<char>, Seq<VersionV<F>>>,
    pub running: Map<u64, (Seq<char>, Seq<char>)>,
    pub history: Map<u64, Seq<Seq<char>>>,
}

/// What versions are.
pub open spec fn versions_view<F>(s: Seq<BehaviorVersion<F>>) -> Seq<VersionV<F>> {
    s.map_values(|v: BehaviorVersion<F>| v@)
}

impl<F> View for HotCodeRegistry<F> {
    type V = CodeV<F>;

    open spec fn view(&self) -> CodeV<F> {
        CodeV {
            behaviors: self.behaviors@.map_values(
                |v: Vec<BehaviorVersion<F>>| versions_view(v@),
            ),
            running: self.process_versions@.map_values(|p: (String, String)| (p.0@, p.1@)),
            history: self.version_history@.map_values(|v: Vec<String>| text::strings_view(v@)),
        }
    }
}

impl<F> CodeV<F> {
    /// The versions of a behavior, in the order in which they were registered.
    pub open spec fn versions(self, name: Seq<char>) -> Seq<VersionV<F>> {
        if self.behaviors.dom().contains(name) {
            self.behaviors[name]
        } else {
            Seq::empty()
        }
    }
}

/// The first version of a list with a given number.
pub open spec fn find_version<F>(s: Seq<VersionV<F>>, version: Seq<char>) -> Option<F>
    decreases s.len(),
{
    if s.len() == 0 {
        None
    } else if s[0].version == version {
        Some(s[0].factory)
    } else {
        find_version(s.drop_first(), version)
    }
}

/// There is no such behavior.
pub open spec fn no_behavior(name: Seq<char>) -> ErrorV {
    ErrorV::HotCode("behavior '"@ + name + "' not found"@)
}

/// There is no such version.
pub open spec fn no_version(name: Seq<char>, version: Seq<char>) -> ErrorV {
    ErrorV::HotCode("version '"@ + version + "' of '"@ + name + "' not found"@)
}

/// What makes a version of a behavior, or why there is none.
pub open spec fn factory_of<F>(s: CodeV<F>, name: Seq<char>, version: Seq<char>) -> Result<F, ErrorV> {
    if !s.behaviors.dom().contains(name) {
        Err(no_behavior(name))
    } else {
        match find_version(s.behaviors[name], version) {
            Some(f) => Ok(f),
            None => Err(no_version(name, version)),
        }
    }
}

/// What a search gave.
pub open spec fn found_view<F>(r: Result<&F, AgentRtError>) -> Result<F, ErrorV> {
    match r {
        Ok(f) => Ok(*f),
        Err(e) => Err(e@),
    }
}

/// What a plan gave: a version, and what makes it.
pub open spec fn plan_view<F>(r: Result<(String, &F), AgentRtError>) -> Result<
    (Seq<char>, F),
    ErrorV,
> {
    match r {
        Ok(p) => Ok((p.0@, *p.1)),
        Err(e) => Err(e@),
    }
}

/// Going over to a version: the version that the process runs, and what makes the new one.
pub open spec fn upgrade<F>(s: CodeV<F>, pid: u64, target: Seq<char>) -> Result<
    (Seq<char>, F),
    ErrorV,
> {
    if !s.running.dom().contains(pid) {
        Err(ErrorV::HotCode("process not tracked"@))
    } else {
        match factory_of(s, s.running[pid].0, target) {
            Ok(f) => Ok((s.running[pid].1, f)),
            Err(e) => Err(e),
        }
    }
}

/// Going back: the latest version in the history of the process, and what makes it.
pub open spec fn rollback<F>(s: CodeV<F>, pid: u64) -> Result<(Seq<char>, F), ErrorV> {
    if !s.running.dom().contains(pid) {
        Err(ErrorV::HotCode("process not tracked"@))
    } else if !s.history.dom().contains(pid) {
        Err(ErrorV::HotCode("no version history"@))
    } else if s.history[pid].len() == 0 {
        Err(ErrorV::HotCode("no previous version"@))
    } else {
        match factory_of(s, s.running[pid].0, s.history[pid].last()) {
            Ok(f) => Ok((s.history[pid].last(), f)),
            Err(e) => Err(e),
        }
    }
}

fn failed(m: &str) -> (r: AgentRtError)
    ensures
        r@ == ErrorV::HotCode(m@),
{
    AgentRtError::HotCode(m.to_owned())
}

impl<F> HotCodeRegistry<F> {
    /// A registry that knows nothing.
    pub fn new() -> (r: Self)
        ensures
            r@ == (CodeV::<F> {
                behaviors: Map::empty(),
                running: Map::empty(),
                history: Map::empty(),
            }),
    {
        let r = HotCodeRegistry {
            behaviors: AssocMap::new(),
            process_versions: AssocMap::new(),
            version_history: AssocMap::new(),
        };
        assert(r@ =~= CodeV::<F> {
            behaviors: Map::empty(),
            running: Map::empty(),
            history: Map::empty(),
        });
        r
    }

    /// Adds a version of a behavior, after those that are there.
    pub fn register(&mut self, name: &str, version: &str, factory: F)
        ensures
            final(self)@ == (CodeV {
                behaviors: old(self)@.behaviors.insert(
                    name@,
                    old(self)@.versions(name@).push(
                        (VersionV { name: name@, version: version@, factory }),
                    ),
                ),
                ..old(self)@
            }),
    {
        let ghost before = self@;
        let entry = BehaviorVersion { name: name.to_owned(), version: version.to_owned(), factory };
        let ghost e = entry@;
        let mut list: Vec<BehaviorVersion<F>> = match self.behaviors.remove_str(name) {
            Some(v) => v,
            None => Vec::new(),
        };
        assert(versions_view(list@) =~= before.versions(name@));
        list.push(entry);
        assert(versions_view(list@) =~= before.versions(name@).push(e));
        self.behaviors.insert(name.to_owned(), list);
        assert(self@.behaviors =~= before.behaviors.insert(
            name@,
            before.versions(name@).push(e),
        ));
    }

    /// The versions of a behavior, in the order in which they were registered.
    pub fn list_versions(&self, name: &str) -> (r: Vec<String>)
        ensures
            text::strings_view(r@) == self@.versions(name@).map_values(|v: VersionV<F>| v.version),
    {
        let mut out: Vec<String> = Vec::new();
        match self.behaviors.get_str(name) {
            Some(list) => {
                let mut i: usize = 0;
                while i < list.len()
                    invariant
                        i <= list@.len(),
                        out@.len() == i,
                        forall|j: int| 0 <= j < i ==> (#[trigger] out@[j])@ == list@[j].version@,
                    decreases list@.len() - i,
                {
                    out.push(list[i].version.clone());
                    i += 1;
                }
                assert(self@.versions(name@) =~= versions_view(list@));
            },
            None => {},
        }
        assert(text::strings_view(out@) =~= self@.versions(name@).map_values(
            |v: VersionV<F>| v.version,
        ));
        out
    }

    /// What makes a version of a behavior.
    pub fn get_factory(&self, name: &str, version: &str) -> (r: Result<&F, AgentRtError>)
        ensures
            found_view(r) == factory_of(self@, name@, version@),
    {
        let list: &Vec<BehaviorVersion<F>> = match self.behaviors.get_str(name) {
            Some(v) => v,
            None => {
                return Err(
                    AgentRtError::HotCode(concat3("behavior '", name, "' not found")),
                );
            },
        };
        let ghost all = versions_view(list@);
        assert(self@.behaviors[name@] == all);
        let mut i: usize = 0;
        assert(all.skip(0) =~= all);
        while i < list.len()
            invariant
                i <= list@.len(),
                all == versions_view(list@),
                self@.behaviors.dom().contains(name@),
                self@.behaviors[name@] == all,
                find_version(all, version@) == find_version(all.skip(i as int), version@),
            decreases list@.len() - i,
        {
            let ghost rest = all.skip(i as int);
            assert(rest[0] == list@[i as int]@);
            assert(rest.drop_first() =~= all.skip(i + 1));
            if str_eq(list[i].version.as_str(), version) {
                return Ok(&list[i].factory);
            }
            i += 1;
        }
        let mut m: String = concat3("version '", version, "' of '");
        m.append(name);
        m.append("' not found");
        Err(AgentRtError::HotCode(m))
    }

    /// Notes the version that a process runs.
    pub fn set_process_version(&mut self, pid: AgentPid, name: &str, version: &str)
        ensures
            final(self)@ == (CodeV {
                running: old(self)@.running.insert(pid.0, (name@, version@)),
                ..old(self)@
            }),
    {
        self.process_versions.insert(pid.raw(), (name.to_owned(), version.to_owned()));
        assert(self@.running =~= old(self)@.running.insert(pid.0, (name@, version@)));
    }

    /// The behavior and the version that a process runs, if that is known.
    pub fn current_version(&self, pid: AgentPid) -> (r: Option<(String, String)>)
        ensures
            r is Some <==> self@.running.dom().contains(pid.0),
            r matches Some(p) ==> self@.running[pid.0] == (p.0@, p.1@),
    {
        match self.process_versions.get(&pid.raw()) {
            Some(p) => Some((p.0.clone(), p.1.clone())),
            None => None,
        }
    }

    /// Forgets a process.
    pub fn remove_process(&mut self, pid: AgentPid)
        ensures
            final(self)@ == (CodeV {
                running: old(self)@.running.remove(pid.0),
                history: old(self)@.history.remove(pid.0),
                ..old(self)@
            }),
    {
        self.process_versions.remove(&pid.raw());
        self.version_history.remove(&pid.raw());
        assert(self@.running =~= old(self)@.running.remove(pid.0));
        assert(self@.history =~= old(self)@.history.remove(pid.0));
    }

    /// The processes that run a version, each once.
    pub fn pids_on_version(&self, name: &str, version: &str) -> (r: Vec<AgentPid>)
        ensures
            r@.no_duplicates(),
            forall|p: AgentPid| #[trigger]
                r@.contains(p) <==> self@.running.dom().contains(p.0) && self@.running[p.0] == (
                    name@,
                    version@,
                ),
    {
        let pairs: Vec<(AgentPid, String)> = self.pids_for_behavior(name);
        let mut out: Vec<AgentPid> = Vec::new();
        let mut i: usize = 0;
        while i < pairs.len()
            invariant
                i <= pairs@.len(),
                forall|a: int, b: int|
                    0 <= a < pairs@.len() && 0 <= b < pairs@.len() && a != b ==> (
                    #[trigger] pairs@[a]).0 != (#[trigger] pairs@[b]).0,
                out@.no_duplicates(),
                forall|p: AgentPid| #[trigger]
                    out@.contains(p) <==> exists|j: int|
                        0 <= j < i && (#[trigger] pairs@[j]).0 == p && pairs@[j].1@ == version@,
            decreases pairs@.len() - i,
        {
            let ghost before = out@;
            let pid: AgentPid = pairs[i].0;
            if str_eq(pairs[i].1.as_str(), version) {
                out.push(pid);
            }
            proof {
                assert(!before.contains(pid));
                assert forall|p: AgentPid| #[trigger] out@.contains(p) <==> exists|j: int|
                    0 <= j < i + 1 && (#[trigger] pairs@[j]).0 == p && pairs@[j].1@ == version@ by {
                    if out@.contains(p) {
                        let k = choose|k: int| 0 <= k < out@.len() && out@[k] == p;
                        if k < before.len() {
                            assert(before[k] == p);
                            assert(before.contains(p));
                        } else {
                            assert(pairs@[i as int].0 == p);
                        }
                    }
                    if exists|j: int|
                        0 <= j < i + 1 && (#[trigger] pairs@[j]).0 == p && pairs@[j].1@ == version@ {
                        let j = choose|j: int|
                            0 <= j < i + 1 && (#[trigger] pairs@[j]).0 == p && pairs@[j].1@
                                == version@;
                        if j == i {
                            assert(out@[before.len() as int] == p);
                        } else {
                            assert(before.contains(p));
                            let k = choose|k: int| 0 <= k < before.len() && before[k] == p;
                            assert(out@[k] == p);
                        }
                    }
                }
            }
            i += 1;
        }
        proof {
            assert forall|p: AgentPid| #[trigger]
                out@.contains(p) <==> self@.running.dom().contains(p.0) && self@.running[p.0] == (
                    name@,
                    version@,
                ) by {
                if out@.contains(p) {
                    let j = choose|j: int|
                        0 <= j < pairs@.len() && (#[trigger] pairs@[j]).0 == p && pairs@[j].1@
                            == version@;
                    assert(self@.running[pairs@[j].0.0] == (name@, pairs@[j].1@));
                }
                if self@.running.dom().contains(p.0) && self@.running[p.0] == (name@, version@) {
                    let j = choose|j: int| 0 <= j < pairs@.len() && (#[trigger] pairs@[j]).0 == p;
                    assert(self@.running[pairs@[j].0.0] == (name@, pairs@[j].1@));
                }
            }
        }
        out
    }

    /// The processes that run a behavior, each once, with their versions.
    pub fn pids_for_behavior(&self, name: &str) -> (r: Vec<(AgentPid, String)>)
        ensures
            forall|a: int, b: int|
                0 <= a < r@.len() && 0 <= b < r@.len() && a != b ==> (#[trigger] r@[a]).0 != (
                #[trigger] r@[b]).0,
            forall|i: int|
                0 <= i < r@.len() ==> self@.running.dom().contains((#[trigger] r@[i]).0.0)
                    && self@.running[r@[i].0.0] == (name@, r@[i].1@),
            forall|p: AgentPid|
                (#[trigger] self@.running.dom().contains(p.0)) && self@.running[p.0].0 == name@
                    ==> exists|i: int| 0 <= i < r@.len() && (#[trigger] r@[i]).0 == p,
    {
        self.process_versions.facts();
        let ghost ord = self.process_versions.order();
        let n: usize = self.process_versions.len();
        let mut out: Vec<(AgentPid, String)> = Vec::new();
        let ghost mut from: Seq<int> = Seq::empty();
        let mut i: usize = 0;
        while i < n
            invariant
                i <= n,
                n == ord.len(),
                ord == self.process_versions.order(),
                from.len() == out@.len(),
                forall|a: int|
                    0 <= a < out@.len() ==> 0 <= #[trigger] from[a] < i && out@[a].0.0
                        == ord[from[a]].0 && out@[a].1@ == ord[from[a]].1.1@
                        && ord[from[a]].1.0@ == name@,
                forall|a: int, b: int|
                    0 <= a < b < from.len() ==> #[trigger] from[a] < #[trigger] from[b],
                forall|j: int|
                    0 <= j < i && (#[trigger] ord[j]).1.0@ == name@ ==> exists|a: int|
                        0 <= a < from.len() && #[trigger] from[a] == j,
            decreases n - i,
        {
            let ghost before = from;
            let (pid, v) = self.process_versions.entry(i);
            if str_eq(v.0.as_str(), name) {
                out.push((AgentPid(*pid), v.1.clone()));
                proof {
                    from = from.push(i as int);
                    assert forall|j: int| 0 <= j < i + 1 && (
                    #[trigger] ord[j]).1.0@ == name@ implies exists|a: int|
                        0 <= a < from.len() && #[trigger] from[a] == j by {
                        if j == i {
                            assert(from[before.len() as int] == j);
                        } else {
                            let a = choose|a: int| 0 <= a < before.len() && #[trigger] before[a] == j;
                            assert(from[a] == j);
                        }
                    }
                }
            }
            i += 1;
        }
        proof {
            assert forall|a: int, b: int|
                0 <= a < out@.len() && 0 <= b < out@.len() && a != b implies (
            #[trigger] out@[a]).0 != (#[trigger] out@[b]).0 by {
                assert(from[a] != from[b]) by {
                    if a < b {
                        assert(from[a] < from[b]);
                    } else {
                        assert(from[b] < from[a]);
                    }
                }
                assert(ord[from[a]].0.id() != ord[from[b]].0.id());
            }
            assert forall|k: int| 0 <= k < out@.len() implies self@.running.dom().contains(
                (#[trigger] out@[k]).0.0,
            ) && self@.running[out@[k].0.0] == (name@, out@[k].1@) by {
                let e = ord[from[k]];
                assert(self.process_versions@.dom().contains(e.0.id()));
                assert(self.process_versions@[e.0.id()] == e.1);
            }
            assert forall|p: AgentPid|
                (#[trigger] self@.running.dom().contains(p.0)) && self@.running[p.0].0
                    == name@ implies exists|k: int|
                0 <= k < out@.len() && (#[trigger] out@[k]).0 == p by {
                assert(self.process_versions@.dom().contains(p.0));
                let j = choose|j: int| 0 <= j < ord.len() && (#[trigger] ord[j]).0.id() == p.0;
                assert(self.process_versions@[ord[j].0.id()] == ord[j].1);
                let a = choose|a: int| 0 <= a < from.len() && #[trigger] from[a] == j;
                assert(out@[a].0 == p);
            }
        }
        out
    }

    /// The version that a process runs, and what makes the version that it is to go over to.
    pub fn prepare_upgrade(&self, pid: AgentPid, target_version: &str) -> (r: Result<
        (String, &F),
        AgentRtError,
    >)
        ensures
            plan_view(r) == upgrade(self@, pid.0, target_version@),
    {
        match self.process_versions.get(&pid.raw()) {
            None => Err(failed("process not tracked")),
            Some(p) => {
                assert(self@.running[pid.0] == (p.0@, p.1@));
                match self.get_factory(p.0.as_str(), target_version) {
                    Ok(f) => Ok((p.1.clone(), f)),
                    Err(e) => Err(e),
                }
            },
        }
    }

    /// Adds a version to the history of a process.
    pub fn push_version_history(&mut self, pid: AgentPid, version: &str)
        ensures
            final(self)@ == (CodeV {
                history: old(self)@.history.insert(
                    pid.0,
                    (if old(self)@.history.dom().contains(pid.0) {
                        old(self)@.history[pid.0]
                    } else {
                        Seq::empty()
                    }).push(version@),
                ),
                ..old(self)@
            }),
    {
        let ghost before = self@;
        let ghost had = if before.history.dom().contains(pid.0) {
            before.history[pid.0]
        } else {
            Seq::empty()
        };
        let mut list: Vec<String> = match self.version_history.remove(&pid.raw()) {
            Some(v) => v,
            None => Vec::new(),
        };
        assert(text::strings_view(list@) =~= had);
        list.push(version.to_owned());
        assert(text::strings_view(list@) =~= had.push(version@));
        self.version_history.insert(pid.raw(), list);
        assert(self@.history =~= before.history.insert(pid.0, had.push(version@)));
    }

    /// The latest version in the history of a process, and what makes it.
    pub fn prepare_rollback(&self, pid: AgentPid) -> (r: Result<(String, &F), AgentRtError>)
        ensures
            plan_view(r) == rollback(self@, pid.0),
    {
        let running: &(String, String) = match self.process_versions.get(&pid.raw()) {
            Some(p) => p,
            None => {
                return Err(failed("process not tracked"));
            },
        };
        assert(self@.running[pid.0] == (running.0@, running.1@));
        let history: &Vec<String> = match self.version_history.get(&pid.raw()) {
            Some(h) => h,
            None => {
                return Err(failed("no version history"));
            },
        };
        assert(self@.history[pid.0] == text::strings_view(history@));
        if history.len() == 0 {
            return Err(failed("no previous version"));
        }
        let version: String = history[history.len() - 1].clone();
        assert(version@ == self@.history[pid.0].last());
        match self.get_factory(running.0.as_str(), version.as_str()) {
            Ok(f) => Ok((version, f)),
            Err(e) => Err(e),
        }
    }

    /// The processes that still run the oldest of three or more versions.
    pub fn stale_pids(&self, name: &str) -> (r: Vec<AgentPid>)
        ensures
            r@.no_duplicates(),
            forall|p: AgentPid| #[trigger]
                r@.contains(p) <==> self@.versions(name@).len() >= 3 && self@.running.dom().contains(
                    p.0,
                ) && self@.running[p.0] == (name@, self@.versions(name@)[0].version),
    {
        match self.behaviors.get_str(name) {
            Some(list) => {
                assert(self@.versions(name@) == versions_view(list@));
                if list.len() >= 3 {
                    self.pids_on_version(name, list[0].version.as_str())
                } else {
                    Vec::new()
                }
            },
            None => Vec::new(),
        }
    }
}

// ---------------------------------------------------------------------------
// What holds of every registry of versions
// ---------------------------------------------------------------------------
/// A version that was registered first under its number is found.
pub proof fn law_registered_is_found<F>(s: Seq<VersionV<F>>, v: VersionV<F>)
    requires
        find_version(s, v.version) is None,
    ensures
        find_version(s.push(v), v.version) == Some(v.factory),
    decreases s.len(),
{
    if s.len() > 0 {
        assert(s.push(v)[0] == s[0]);
        assert(s.push(v).drop_first() =~= s.drop_first().push(v));
        law_registered_is_found(s.drop_first(), v);
    }
}

/// A process that noted its version before it went over to another can go back to it.
pub proof fn law_rollback_after_upgrade<F>(s: CodeV<F>, pid: u64, to: Seq<char>)
    requires
        s.running.dom().contains(pid),
        factory_of(s, s.running[pid].0, s.running[pid].1) is Ok,
    ensures
        ({
            let was = s.running[pid];
            let t = CodeV {
                history: s.history.insert(
                    pid,
                    (if s.history.dom().contains(pid) {
                        s.history[pid]
                    } else {
                        Seq::empty()
                    }).push(was.1),
                ),
                running: s.running.insert(pid, (was.0, to)),
                ..s
            };
            rollback(t, pid) matches Ok(p) && p.0 == was.1
        }),
{
}

/// A version is found exactly where one was registered, and then the first of them.
pub proof fn law_first_version_found<F>(s: Seq<VersionV<F>>, version: Seq<char>)
    ensures
        find_version(s, version) is None <==> forall|i: int|
            0 <= i < s.len() ==> (#[trigger] s[i]).version != version,
        find_version(s, version) matches Some(f) ==> exists|i: int|
            0 <= i < s.len() && (#[trigger] s[i]).version == version && s[i].factory == f && (forall|
                j: int,
            |
                0 <= j < i ==> (#[trigger] s[j]).version != version),
    decreases s.len(),
{
    if s.len() > 0 && s[0].version != version {
        let t = s.drop_first();
        law_first_version_found(t, version);
        if find_version(t, version) is Some {
            let i = choose|i: int|
                0 <= i < t.len() && (#[trigger] t[i]).version == version && Some(t[i].factory)
                    == find_version(t, version) && (forall|j: int|
                    0 <= j < i ==> (#[trigger] t[j]).version != version);
            assert(s[i + 1] == t[i]);
            assert forall|j: int| 0 <= j < i + 1 implies (#[trigger] s[j]).version != version by {
                if j > 0 {
                    assert(s[j] == t[j - 1]);
                }
            }
        } else {
            assert forall|j: int| 0 <= j < s.len() implies (#[trigger] s[j]).version != version by {
                if j > 0 {
                    assert(s[j] == t[j - 1]);
                }
            }
        }
    }
}

/// Going over to a version needs a process that is known and a version that was registered for its
/// behavior: then it gives what makes that version, and the version to go back to.
pub proof fn law_upgrade_by_name<F>(s: CodeV<F>, pid: u64, target: Seq<char>)
    ensures
        upgrade(s, pid, target) is Ok <==> s.running.dom().contains(pid) && s.behaviors.dom().contains(
            s.running[pid].0,
        ) && find_version(s.behaviors[s.running[pid].0], target) is Some,
        upgrade(s, pid, target) matches Ok(p) ==> p.0 == s.running[pid].1 && Some(p.1)
            == find_version(s.behaviors[s.running[pid].0], target),
        rollback(s, pid) is Ok ==> s.history.dom().contains(pid) && s.history[pid].len() > 0
            && upgrade(s, pid, s.history[pid].last()) is Ok,
        rollback(s, pid) matches Ok(p) ==> p.0 == s.history[pid].last() && upgrade(
            s,
            pid,
            s.history[pid].last(),
        ) == Ok::<(Seq<char>, F), ErrorV>((s.running[pid].1, p.1)),
{
}

} // verus!
