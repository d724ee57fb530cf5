//! Tasks that wait for a decision before they may run.
use vstd::prelude::*;
use crate::json::{Json, JsonV};
use crate::util::assoc::{AssocMap, MapKey};

verus! {

/// A task that waits for a decision. The time is in nanoseconds.
#[derive(Debug, PartialEq, Eq)]
pub struct ApprovalRequest {
    pub message: String,
    pub task: Json,
    pub requested_at: u128,
}

/// What a request is.
pub struct RequestV {
    pub message: Seq<char>,
    pub task: JsonV,
    pub requested_at: u128,
}

impl View for ApprovalRequest {
    type V = RequestV;

    open spec fn view(&self) -> RequestV {
        RequestV { message: self.message@, task: self.task@, requested_at: self.requested_at }
    }
}

/// What was decided.
#[derive(Debug, PartialEq, Eq)]
pub enum ApprovalDecision {
    Approved,
    Rejected { reason: String },
}

/// Keeps the requests that wait, and the decisions that nobody has taken yet. Both are found by
/// an orchestration and one of its tasks.
pub struct ApprovalRegistry {
    pub pending: AssocMap<(String, String), ApprovalRequest>,
    pub decisions: AssocMap<(String, String), ApprovalDecision>,
}

/// What a registry is.
#[verifier::ext_equal]
pub struct ApprovalsV {
    pub pending: Map<(Seq<char>, Seq<char>), RequestV>,
    pub decisions: Map<(Seq<char>, Seq<char>), ApprovalDecision>,
}

/// What requests are.
pub open spec fn requests_view(m: Map<(Seq<char>, Seq<char>), ApprovalRequest>) -> Map<
    (Seq<char>, Seq<char>),
    RequestV,
> {
    m.map_values(|q: ApprovalRequest| q@)
}

impl View for ApprovalRegistry {
    type V = ApprovalsV;

    open spec fn view(&self) -> ApprovalsV {
        ApprovalsV { pending: requests_view(self.pending@), decisions: self.decisions@ }
    }
}

/// Somebody is asked about a task.
pub open spec fn requested(s: ApprovalsV, k: (Seq<char>, Seq<char>), q: RequestV) -> ApprovalsV {
    ApprovalsV { pending: s.pending.insert(k, q), ..s }
}

/// A decision about a task: it counts where somebody was asked.
pub open spec fn decided(s: ApprovalsV, k: (Seq<char>, Seq<char>), d: ApprovalDecision) -> ApprovalsV {
    if s.pending.dom().contains(k) {
        ApprovalsV { pending: s.pending.remove(k), decisions: s.decisions.insert(k, d) }
    } else {
        s
    }
}

/// The decision about a task is taken away.
pub open spec fn taken(s: ApprovalsV, k: (Seq<char>, Seq<char>)) -> ApprovalsV {
    ApprovalsV { decisions: s.decisions.remove(k), ..s }
}

impl ApprovalRegistry {
    /// Nothing waits.
    pub fn new() -> (r: Self)
        ensures
            r@ == (ApprovalsV { pending: Map::empty(), decisions: Map::empty() }),
    {
        let r = ApprovalRegistry { pending: AssocMap::new(), decisions: AssocMap::new() };
        assert(r@.pending =~= Map::empty());
        r
    }

    /// A task asks for a decision at `now`.
    pub fn request_approval(
        &mut self,
        orch_id: &str,
        task_id: &str,
        message: &str,
        task: Json,
        now: u128,
    )
        ensures
            final(self)@ == requested(
                old(self)@,
                (orch_id@, task_id@),
                (RequestV { message: message@, task: task@, requested_at: now }),
            ),
    {
        let q = ApprovalRequest { message: message.to_owned(), task, requested_at: now };
        let ghost before = self.pending@;
        self.pending.insert((orch_id.to_owned(), task_id.to_owned()), q);
        assert(requests_view(self.pending@) =~= requests_view(before).insert(
            (orch_id@, task_id@),
            q@,
        ));
    }

    /// A decision comes in. It counts only where the task waits for one.
    pub fn submit_decision(
        &mut self,
        orch_id: &str,
        task_id: &str,
        decision: ApprovalDecision,
    ) -> (r: bool)
        ensures
            r == old(self)@.pending.dom().contains((orch_id@, task_id@)),
            final(self)@ == decided(old(self)@, (orch_id@, task_id@), decision),
    {
        let key: (String, String) = (orch_id.to_owned(), task_id.to_owned());
        let ghost before = self.pending@;
        let was: Option<ApprovalRequest> = self.pending.remove(&key);
        assert(requests_view(self.pending@) =~= requests_view(before).remove((orch_id@, task_id@)));
        match was {
            Some(_) => {
                self.decisions.insert(key, decision);
                true
            },
            None => {
                assert(self@.pending =~= old(self)@.pending);
                false
            },
        }
    }

    /// Takes the decision on a task, if there is one. It is gone then.
    pub fn take_decision(&mut self, orch_id: &str, task_id: &str) -> (r: Option<ApprovalDecision>)
        ensures
            r is Some <==> old(self)@.decisions.dom().contains((orch_id@, task_id@)),
            r matches Some(d) ==> d == old(self)@.decisions[(orch_id@, task_id@)],
            final(self)@ == taken(old(self)@, (orch_id@, task_id@)),
    {
        self.decisions.remove(&(orch_id.to_owned(), task_id.to_owned()))
    }

    /// The requests that wait, each once.
    pub fn pending_requests(&self) -> (r: Vec<(&str, &str, &ApprovalRequest)>)
        ensures
            r@.len() == self@.pending.dom().len(),
            forall|i: int|
                0 <= i < r@.len() ==> {
                    let e = #[trigger] r@[i];
                    &&& self@.pending.dom().contains((e.0@, e.1@))
                    &&& self@.pending[(e.0@, e.1@)] == e.2@
                },
            forall|k: (Seq<char>, Seq<char>)| #[trigger]
                self@.pending.dom().contains(k) ==> exists|i: int|
                    0 <= i < r@.len() && (#[trigger] r@[i]).0@ == k.0 && r@[i].1@ == k.1,
    {
        self.pending.facts();
        let ghost ord = self.pending.order();
        assert(self@.pending.dom() =~= self.pending@.dom());
        let n: usize = self.pending.len();
        let mut out: Vec<(&str, &str, &ApprovalRequest)> = Vec::new();
        let mut i: usize = 0;
        while i < n
            invariant
                i <= n,
                n == ord.len(),
                ord == self.pending.order(),
                out@.len() == i,
                forall|j: int|
                    0 <= j < i ==> (#[trigger] out@[j]).0@ == ord[j].0.id().0 && out@[j].1@
                        == ord[j].0.id().1 && *out@[j].2 == ord[j].1,
            decreases n - i,
        {
            let (k, q) = self.pending.entry(i);
            out.push((k.0.as_str(), k.1.as_str(), q));
            i += 1;
        }
        proof {
            assert forall|j: int| 0 <= j < out@.len() implies {
                let e = #[trigger] out@[j];
                &&& self@.pending.dom().contains((e.0@, e.1@))
                &&& self@.pending[(e.0@, e.1@)] == e.2@
            } by {
                let e = out@[j];
                assert(ord[j].0.id() == (e.0@, e.1@));
                assert(self.pending@.dom().contains(ord[j].0.id()));
            }
            assert forall|k: (Seq<char>, Seq<char>)| #[trigger]
                self@.pending.dom().contains(k) implies exists|j: int|
                0 <= j < out@.len() && (#[trigger] out@[j]).0@ == k.0 && out@[j].1@ == k.1 by {
                assert(self.pending@.dom().contains(k));
                let j = choose|j: int| 0 <= j < ord.len() && (#[trigger] ord[j]).0.id() == k;
                assert(out@[j].0@ == k.0);
            }
        }
        out
    }

    /// Whether a task waits for a decision.
    pub fn has_pending(&self, orch_id: &str, task_id: &str) -> (r: bool)
        ensures
            r == self@.pending.dom().contains((orch_id@, task_id@)),
    {
        self.pending.contains_key(&(orch_id.to_owned(), task_id.to_owned()))
    }
}

/// Whether a task has to wait for a decision.
pub fn task_requires_approval(task: &Json) -> (r: bool)
    ensures
        r <==> task@.get("requires_approval"@) == Some(JsonV::Bool(true)),
{
    match task.get("requires_approval") {
        Some(v) => match v.as_bool() {
            Some(b) => b,
            None => false,
        },
        None => false,
    }
}

/// What a task asks: its own text, or a common one.
pub open spec fn asked(task: JsonV) -> Seq<char> {
    match task.get_text("approval_message"@) {
        Some(s) => s,
        None => "Approval required"@,
    }
}

/// What a task asks.
pub fn approval_message(task: &Json) -> (r: String)
    ensures
        r@ == asked(task@),
{
    match task.get_str("approval_message") {
        Some(s) => s.clone(),
        None => "Approval required".to_owned(),
    }
}

/// A request is decided once, and the decision is taken once: after the decision nobody waits for
/// another, and after it was taken there is none. Other tasks are not touched.
pub proof fn law_decided_and_taken_once(
    s: ApprovalsV,
    k: (Seq<char>, Seq<char>),
    other: (Seq<char>, Seq<char>),
    q: RequestV,
    d: ApprovalDecision,
    later: ApprovalDecision,
)
    requires
        other != k,
    ensures
        ({
            let s1 = decided(requested(s, k, q), k, d);
            &&& s1.decisions.dom().contains(k) && s1.decisions[k] == d
            &&& !s1.pending.dom().contains(k)
            &&& decided(s1, k, later) == s1
            &&& !taken(s1, k).decisions.dom().contains(k)
            &&& s1.pending.dom().contains(other) == s.pending.dom().contains(other)
            &&& s1.decisions.dom().contains(other) == s.decisions.dom().contains(other)
        }),
{
}

/// A decision about a task that nobody was asked about counts for nothing; a request is kept as it
/// was made, and replaces only an earlier one of the same task.
pub proof fn law_only_requests_decided(
    s: ApprovalsV,
    k: (Seq<char>, Seq<char>),
    other: (Seq<char>, Seq<char>),
    q: RequestV,
    d: ApprovalDecision,
)
    requires
        other != k,
    ensures
        !s.pending.dom().contains(k) ==> decided(s, k, d) == s,
        requested(s, k, q).pending.dom() == s.pending.dom().insert(k),
        requested(s, k, q).pending[k] == q,
        s.pending.dom().contains(other) ==> requested(s, k, q).pending[other] == s.pending[other]
            && decided(s, k, d).pending.dom().contains(other) && decided(s, k, d).pending[other]
            == s.pending[other],
        requested(s, k, q).decisions == s.decisions,
        s.decisions.dom().contains(other) ==> decided(s, k, d).decisions[other]
            == s.decisions[other] && taken(s, k).decisions.dom().contains(other) && taken(
            s,
            k,
        ).decisions[other] == s.decisions[other],
        taken(s, k).pending == s.pending,
{
    assert(requested(s, k, q).pending.dom() =~= s.pending.dom().insert(k));
}

} // verus!
