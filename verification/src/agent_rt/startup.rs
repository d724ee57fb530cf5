//! Starting the agents of the settings.
use vstd::prelude::*;
use crate::agent_rt::agent_worker::{AgentWorkerBehavior, AgentWorkerState, WorkerV};
use crate::agent_rt::config::AgentConfig;
use crate::agent_rt::process;
use crate::agent_rt::registry;
use crate::agent_rt::registry::RegV;
use crate::agent_rt::scheduler::{AgentScheduler, SchedV};
use crate::agent_rt::types;
use crate::agent_rt::types::{AgentBehavior, AgentPid};
use crate::json::ObjectBuilder;
use crate::util::text;
use crate::util::text::concat3;

verus! {

/// A worker has the settings of an agent.
pub open spec fn worker_of(b: AgentWorkerBehavior, c: AgentConfig) -> bool {
    &&& b.name@ == c.name@
    &&& b.provider@ == c.provider@
    &&& types::opt_str(b.model) == types::opt_str(c.model)
    &&& types::opt_str(b.system_prompt) == types::opt_str(c.system_prompt)
    &&& text::strings_view(b.tools@) == text::strings_view(c.tools@)
    &&& b.max_iterations == c.max_iterations
    &&& b.timeout_ms == c.timeout_ms
}

/// The agents that start by themselves, in order.
pub open spec fn auto_started(agents: Seq<AgentConfig>) -> Seq<AgentConfig>
    decreases agents.len(),
{
    if agents.len() == 0 {
        Seq::empty()
    } else if agents.last().auto_start {
        auto_started(agents.drop_last()).push(agents.last())
    } else {
        auto_started(agents.drop_last())
    }
}

/// A worker and the state that it starts with.
pub struct Started {
    pub behavior: AgentWorkerBehavior,
    pub state: AgentWorkerState,
}

/// A worker has the settings of an agent, and nothing to do yet.
pub open spec fn starts_as(s: Started, c: AgentConfig) -> bool {
    worker_of(s.behavior, c) && s.state@ == (WorkerV {
        busy: false,
        last_requester: None,
        pending: Seq::empty(),
    })
}

/// A registry with one more process, which has the name of its agent.
pub open spec fn with_agent(
    r: RegV<AgentWorkerBehavior>,
    c: AgentConfig,
    s: Started,
) -> RegV<AgentWorkerBehavior> {
    let pid = AgentPid(r.next);
    RegV {
        procs: r.procs.insert(r.next, process::fresh_process(pid, s.behavior, s.state)),
        names: r.names.insert(c.name@, pid),
        next: registry::pid_after(r.next),
    }
}

/// A registry with one more process for every agent.
pub open spec fn with_agents(
    r: RegV<AgentWorkerBehavior>,
    agents: Seq<AgentConfig>,
    ws: Seq<Started>,
) -> RegV<AgentWorkerBehavior>
    decreases agents.len(),
{
    if agents.len() == 0 {
        r
    } else {
        with_agent(with_agents(r, agents.drop_last(), ws.drop_last()), agents.last(), ws.last())
    }
}

/// The ids and names of the processes that were started.
pub open spec fn started_list(
    r: RegV<AgentWorkerBehavior>,
    agents: Seq<AgentConfig>,
    ws: Seq<Started>,
) -> Seq<(AgentPid, Seq<char>)>
    decreases agents.len(),
{
    if agents.len() == 0 {
        Seq::empty()
    } else {
        started_list(r, agents.drop_last(), ws.drop_last()).push(
            (
                AgentPid(with_agents(r, agents.drop_last(), ws.drop_last()).next),
                agents.last().name@,
            ),
        )
    }
}

/// Every worker starts as its agent says.
pub open spec fn all_start(agents: Seq<AgentConfig>, ws: Seq<Started>) -> bool {
    ws.len() == agents.len() && forall|i: int|
        0 <= i < agents.len() ==> starts_as(#[trigger] ws[i], agents[i])
}

/// What a list of ids and names is.
pub open spec fn names_view(s: Seq<(AgentPid, String)>) -> Seq<(AgentPid, Seq<char>)> {
    s.map_values(|e: (AgentPid, String)| (e.0, e.1@))
}

fn copy_opt(o: &Option<String>) -> (r: Option<String>)
    ensures
        types::opt_str(r) == types::opt_str(*o),
{
    match o {
        Some(s) => Some(s.clone()),
        None => None,
    }
}

fn copy_all(v: &Vec<String>) -> (r: Vec<String>)
    ensures
        text::strings_view(r@) == text::strings_view(v@),
{
    let mut out: Vec<String> = Vec::new();
    let mut i: usize = 0;
    while i < v.len()
        invariant
            i <= v@.len(),
            out@.len() == i,
            forall|j: int| 0 <= j < i ==> (#[trigger] out@[j])@ == v@[j]@,
        decreases v@.len() - i,
    {
        out.push(v[i].clone());
        i += 1;
    }
    assert(text::strings_view(out@) =~= text::strings_view(v@));
    out
}

/// Starts a process for every agent that starts by itself, in order, and gives it the name of
/// the agent. A worker never refuses to start, so this always succeeds.
pub fn spawn_configured_agents(
    scheduler: &mut AgentScheduler<AgentWorkerBehavior>,
    agents: &Vec<AgentConfig>,
) -> (r: Result<Vec<(AgentPid, String)>, String>)
    requires
        old(scheduler).wf(),
    ensures
        final(scheduler).wf(),
        exists|ws: Seq<Started>| #[trigger]
            all_start(auto_started(agents@), ws) && final(scheduler)@ == (SchedV {
                reg: with_agents(old(scheduler)@.reg, auto_started(agents@), ws),
                ..old(scheduler)@
            }) && (r matches Ok(list) && names_view(list@) == started_list(
                old(scheduler)@.reg,
                auto_started(agents@),
                ws,
            )),
{
    let ghost s0 = scheduler@;
    let mut out: Vec<(AgentPid, String)> = Vec::new();
    let ghost mut ws: Seq<Started> = Seq::empty();
    let mut i: usize = 0;
    assert(agents@.take(0) =~= Seq::<AgentConfig>::empty());
    assert(names_view(out@) =~= Seq::<(AgentPid, Seq<char>)>::empty());
    while i < agents.len()
        invariant
            i <= agents@.len(),
            scheduler.wf(),
            s0 == old(scheduler)@,
            all_start(auto_started(agents@.take(i as int)), ws),
            scheduler@ == (SchedV {
                reg: with_agents(s0.reg, auto_started(agents@.take(i as int)), ws),
                ..s0
            }),
            names_view(out@) == started_list(s0.reg, auto_started(agents@.take(i as int)), ws),
        decreases agents@.len() - i,
    {
        let cfg = &agents[i];
        let ghost wanted = auto_started(agents@.take(i as int));
        assert(agents@.take(i + 1).drop_last() =~= agents@.take(i as int));
        assert(agents@.take(i + 1).last() == *cfg);
        if cfg.auto_start {
            let ghost before = scheduler@;
            let behavior = AgentWorkerBehavior::new(
                cfg.name.clone(),
                cfg.provider.clone(),
                copy_opt(&cfg.model),
                copy_opt(&cfg.system_prompt),
                copy_all(&cfg.tools),
                cfg.max_iterations,
                cfg.timeout_ms,
            );
            let ghost b = behavior;
            let none = ObjectBuilder::new();
            let args = none.build();
            let pid: AgentPid = match scheduler.registry.spawn(behavior, args) {
                Ok(pid) => pid,
                Err(_) => {
                    return Err(
                        concat3("Failed to spawn agent '", cfg.name.as_str(), "'"),
                    );
                },
            };
            let ghost st = choose|st: AgentWorkerState| #[trigger]
                process::fresh_process(pid, b, st) == scheduler@.reg.procs[pid.0] && call_ensures(
                    AgentWorkerBehavior::init,
                    (&b, args),
                    Ok::<AgentWorkerState, types::Reason>(st),
                );
            scheduler.registry.register_name(cfg.name.as_str(), pid);
            let ghost w = Started { behavior: b, state: st };
            let ghost next = ws.push(w);
            let ghost now = wanted.push(*cfg);
            proof {
                assert(next.drop_last() =~= ws);
                assert(now.drop_last() =~= wanted);
                assert(starts_as(w, *cfg));
                assert forall|j: int| 0 <= j < now.len() implies starts_as(
                    #[trigger] next[j],
                    now[j],
                ) by {
                    if j < wanted.len() {
                        assert(next[j] == ws[j]);
                        assert(now[j] == wanted[j]);
                    }
                }
                assert(scheduler@.reg.procs =~= with_agent(before.reg, *cfg, w).procs);
                assert(scheduler@.reg == with_agent(before.reg, *cfg, w));
            }
            let ghost listed = names_view(out@);
            out.push((pid, cfg.name.clone()));
            proof {
                assert(names_view(out@) =~= listed.push((pid, cfg.name@)));
                ws = next;
            }
        }
        i += 1;
    }
    assert(agents@.take(i as int) =~= agents@);
    Ok(out)
}

/// Just those agents start by themselves that are to, in their order.
pub proof fn law_only_auto_start(agents: Seq<AgentConfig>)
    ensures
        auto_started(agents) == agents.filter(|a: AgentConfig| a.auto_start),
    decreases agents.len(),
{
    reveal(Seq::filter);
    if agents.len() > 0 {
        law_only_auto_start(agents.drop_last());
    } else {
        assert(auto_started(agents) =~= agents.filter(|a: AgentConfig| a.auto_start));
    }
}

/// Every agent gets a process of its own, with the settings of the agent; the list that comes back
/// names them in order.
pub proof fn law_each_agent_runs(
    r: RegV<AgentWorkerBehavior>,
    agents: Seq<AgentConfig>,
    ws: Seq<Started>,
    i: int,
)
    requires
        all_start(agents, ws),
        registry::below(r),
        r.next + agents.len() <= u64::MAX,
        0 <= i < agents.len(),
    ensures
        ({
            let t = with_agents(r, agents, ws);
            let pid = AgentPid((r.next + i) as u64);
            &&& started_list(r, agents, ws).len() == agents.len()
            &&& started_list(r, agents, ws)[i] == (pid, agents[i].name@)
            &&& t.next == r.next + agents.len()
            &&& registry::below(t)
            &&& t.procs.dom().contains(pid.0)
            &&& worker_of(t.procs[pid.0].behavior, agents[i])
            &&& t.procs[pid.0].state is Some
            &&& t.names.dom().contains(agents[i].name@)
            &&& (forall|j: int| i < j < agents.len() ==> (#[trigger] agents[j]).name@ != agents[i].name@)
                ==> t.names[agents[i].name@] == pid
        }),
    decreases agents.len(),
{
    let front = agents.drop_last();
    let w = ws.drop_last();
    assert(agents.last() == agents[agents.len() - 1] && ws.last() == ws[ws.len() - 1]);
    assert(front.len() == 0 ==> with_agents(r, front, w) == r && started_list(r, front, w).len()
        == 0);
    assert forall|k: int| 0 <= k < front.len() implies starts_as(#[trigger] w[k], front[k]) by {
        assert(w[k] == ws[k]);
    }
    assert(starts_as(ws[ws.len() - 1], agents[ws.len() - 1]));
    if front.len() > 0 {
        if i < front.len() {
            law_each_agent_runs(r, front, w, i);
            assert(front[i] == agents[i]);
            assert forall|j: int| i < j < front.len() && (forall|k: int|
                i < k < agents.len() ==> (#[trigger] agents[k]).name@ != agents[i].name@) implies (
            #[trigger] front[j]).name@ != front[i].name@ by {
                assert(front[j] == agents[j]);
            }
            assert(agents.last() == agents[agents.len() - 1]);
        } else {
            law_each_agent_runs(r, front, w, 0);
        }
    }
}

} // verus!
