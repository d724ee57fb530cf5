//! A graph of tasks with dependencies.
use vstd::prelude::*;
use crate::json;
use crate::util::text;
use crate::json::{collect_texts, Json, JsonV};
use crate::util::assoc::{AssocMap, MapKey};

verus! {

/// Where a task stands.
#[derive(Debug, Clone, Copy, PartialEq, Eq, Structural)]
pub enum TaskStatus {
    Pending,
    Ready,
    AwaitingApproval,
    Running,
    Completed,
    Failed,
    Skipped,
}

/// One task, the tasks it waits for, and where it stands.
#[derive(Debug)]
pub struct TaskNode {
    pub task: Json,
    pub depends_on: Vec<String>,
    pub status: TaskStatus,
}

/// What a task node is.
pub struct NodeV {
    pub task: JsonV,
    pub depends_on: Seq<Seq<char>>,
    pub status: TaskStatus,
}

impl View for TaskNode {
    type V = NodeV;

    open spec fn view(&self) -> NodeV {
        NodeV { task: self.task@, depends_on: text::strings_view(self.depends_on@), status: self.status }
    }
}

/// Tasks by their id, and the ids in the order of their arrival.
pub struct TaskGraph {
    tasks: AssocMap<String, TaskNode>,
    insertion_order: Vec<String>,
}

/// The tasks of a graph by id.
pub type Tasks = Map<Seq<char>, NodeV>;

/// What a graph is.
pub struct GraphV {
    pub tasks: Tasks,
    pub order: Seq<Seq<char>>,
}

/// What the nodes of a map are.
pub open spec fn nodes_view(m: Map<Seq<char>, TaskNode>) -> Tasks {
    m.map_values(|n: TaskNode| n@)
}

impl View for TaskGraph {
    type V = GraphV;

    closed spec fn view(&self) -> GraphV {
        GraphV { tasks: nodes_view(self.tasks@), order: text::strings_view(self.insertion_order@) }
    }
}

/// The ids that a task names under `depends_on`.
pub open spec fn deps_of(task: JsonV) -> Seq<Seq<char>> {
    match task.get("depends_on"@) {
        Some(v) => match v.items() {
            Some(a) => json::texts(a),
            None => Seq::empty(),
        },
        None => Seq::empty(),
    }
}

/// The node of a task that arrives: ready where it depends on nothing, else pending.
pub open spec fn arriving(task: JsonV) -> NodeV {
    NodeV {
        task,
        depends_on: deps_of(task),
        status: if deps_of(task).len() == 0 {
            TaskStatus::Ready
        } else {
            TaskStatus::Pending
        },
    }
}

/// Whether every task of a list has an id.
pub open spec fn all_named(tasks: Seq<JsonV>) -> bool {
    forall|i: int| 0 <= i < tasks.len() ==> (#[trigger] tasks[i]).get_text("task_id"@) is Some
}

/// How many tasks at the front of the list have an id.
pub open spec fn named_prefix(tasks: Seq<JsonV>) -> nat
    decreases tasks.len(),
{
    if tasks.len() == 0 || tasks[0].get_text("task_id"@) is None {
        0
    } else {
        1 + named_prefix(tasks.drop_first())
    }
}

/// The ids of tasks that all have one.
pub open spec fn ids_of(tasks: Seq<JsonV>) -> Seq<Seq<char>> {
    tasks.map_values(|t: JsonV| t.get_text("task_id"@)->0)
}

/// The graph after the arrival of tasks that all have an id, one after the other.
pub open spec fn with_tasks(g: GraphV, tasks: Seq<JsonV>) -> GraphV
    decreases tasks.len(),
{
    if tasks.len() == 0 {
        g
    } else {
        let h = with_tasks(g, tasks.drop_last());
        let id = tasks.last().get_text("task_id"@)->0;
        GraphV { tasks: h.tasks.insert(id, arriving(tasks.last())), order: h.order.push(id) }
    }
}

/// Task `a` names `b` as one it depends on.
pub open spec fn edge(tasks: Tasks, a: Seq<char>, b: Seq<char>) -> bool {
    tasks.dom().contains(a) && tasks[a].depends_on.contains(b)
}

/// The task at `i` on the way `p` names the next one as one it depends on.
pub open spec fn step(tasks: Tasks, p: Seq<Seq<char>>, i: int) -> bool {
    edge(tasks, p[i], p[i + 1])
}

/// `p` leads along dependencies from its first id to its last.
pub open spec fn is_path(tasks: Tasks, p: Seq<Seq<char>>) -> bool {
    p.len() >= 2 && forall|i: int| 0 <= i < p.len() - 1 ==> #[trigger] step(tasks, p, i)
}

/// Task `a` depends on `b`, directly or through other tasks.
pub open spec fn depends(tasks: Tasks, a: Seq<char>, b: Seq<char>) -> bool {
    exists|p: Seq<Seq<char>>| #[trigger] is_path(tasks, p) && p[0] == a && p.last() == b
}

/// Some task depends on itself.
pub open spec fn cyclic(tasks: Tasks) -> bool {
    exists|a: Seq<char>| #[trigger] depends(tasks, a, a)
}

/// The tasks with the status of those in `hit` set to `st`.
pub open spec fn with_status(tasks: Tasks, hit: spec_fn(Seq<char>) -> bool, st: TaskStatus) -> Tasks {
    tasks.map_entries(
        |id: Seq<char>, n: NodeV|
            if hit(id) {
                NodeV { status: st, ..n }
            } else {
                n
            },
    )
}

/// Every dependency of `n` is a task of the graph that is completed.
pub open spec fn deps_completed(tasks: Tasks, n: NodeV) -> bool {
    forall|i: int|
        0 <= i < n.depends_on.len() ==> tasks.dom().contains(#[trigger] n.depends_on[i])
            && tasks[n.depends_on[i]].status == TaskStatus::Completed
}

/// A task runs, and so does every other that was ready.
pub open spec fn running(tasks: Tasks, t: Seq<char>) -> Tasks {
    with_status(
        tasks,
        |id: Seq<char>| id == t || tasks[id].status == TaskStatus::Ready,
        TaskStatus::Running,
    )
}

/// A task is completed; those that waited for it alone are ready.
pub open spec fn completed(tasks: Tasks, t: Seq<char>) -> Tasks {
    let done = with_status(tasks, |id: Seq<char>| id == t, TaskStatus::Completed);
    with_status(
        done,
        |id: Seq<char>|
            done[id].status == TaskStatus::Pending && deps_completed(done, done[id]),
        TaskStatus::Ready,
    )
}

/// A task has failed.
pub open spec fn failed(tasks: Tasks, t: Seq<char>) -> Tasks {
    with_status(tasks, |id: Seq<char>| id == t, TaskStatus::Failed)
}

/// All that depends on a task is skipped.
pub open spec fn skipped(tasks: Tasks, t: Seq<char>) -> Tasks {
    with_status(tasks, |id: Seq<char>| depends(tasks, id, t), TaskStatus::Skipped)
}

/// The tasks of the ready ids of `order`, in that order.
pub open spec fn ready_list(tasks: Tasks, order: Seq<Seq<char>>) -> Seq<JsonV>
    decreases order.len(),
{
    if order.len() == 0 {
        Seq::empty()
    } else {
        let rest = ready_list(tasks, order.drop_last());
        let id = order.last();
        if tasks.dom().contains(id) && tasks[id].status == TaskStatus::Ready {
            rest.push(tasks[id].task)
        } else {
            rest
        }
    }
}

/// The task is over.
pub open spec fn is_over(st: TaskStatus) -> bool {
    st == TaskStatus::Completed || st == TaskStatus::Failed || st == TaskStatus::Skipped
}

// ---------------------------------------------------------------------------
// Paths and cycles
// ---------------------------------------------------------------------------
/// A numbering that falls along every dependency rules cycles out.
pub proof fn lemma_ranked_acyclic(tasks: Tasks, rank: Map<Seq<char>, nat>)
    requires
        forall|a: Seq<char>, b: Seq<char>| #[trigger]
            edge(tasks, a, b) && tasks.dom().contains(b) ==> rank[b] < rank[a],
    ensures
        !cyclic(tasks),
{
    if cyclic(tasks) {
        let a = choose|a: Seq<char>| #[trigger] depends(tasks, a, a);
        let p = choose|p: Seq<Seq<char>>| #[trigger] is_path(tasks, p) && p[0] == a && p.last() == a;
        lemma_rank_falls(tasks, rank, p, p.len() - 1);
    }
}

proof fn lemma_rank_falls(tasks: Tasks, rank: Map<Seq<char>, nat>, p: Seq<Seq<char>>, k: int)
    requires
        is_path(tasks, p),
        p[0] == p.last(),
        1 <= k < p.len(),
        forall|a: Seq<char>, b: Seq<char>| #[trigger]
            edge(tasks, a, b) && tasks.dom().contains(b) ==> rank[b] < rank[a],
    ensures
        rank[p[k]] < rank[p[0]],
    decreases k,
{
    assert(step(tasks, p, k - 1));
    assert(tasks.dom().contains(p[k])) by {
        if k < p.len() - 1 {
            assert(step(tasks, p, k));
        } else {
            assert(step(tasks, p, 0));
        }
    }
    if k > 1 {
        lemma_rank_falls(tasks, rank, p, k - 1);
    }
}

/// A walk of `n + 1` ids that starts at `a` and stays in `r`.
spec fn walk(tasks: Tasks, r: Set<Seq<char>>, a: Seq<char>, n: nat) -> Seq<Seq<char>>
    decreases n,
{
    if n == 0 {
        seq![a]
    } else {
        let w = walk(tasks, r, a, (n - 1) as nat);
        w.push(choose|b: Seq<char>| r.contains(b) && #[trigger] edge(tasks, w.last(), b))
    }
}

proof fn lemma_walk(tasks: Tasks, r: Set<Seq<char>>, a: Seq<char>, n: nat)
    requires
        r.contains(a),
        forall|x: Seq<char>| #[trigger]
            r.contains(x) ==> exists|b: Seq<char>| r.contains(b) && #[trigger] edge(tasks, x, b),
    ensures
        walk(tasks, r, a, n).len() == n + 1,
        forall|i: int| 0 <= i <= n ==> r.contains(#[trigger] walk(tasks, r, a, n)[i]),
        forall|i: int|
            0 <= i < n ==> #[trigger] step(tasks, walk(tasks, r, a, n), i),
    decreases n,
{
    if n > 0 {
        let m = (n - 1) as nat;
        lemma_walk(tasks, r, a, m);
        let w = walk(tasks, r, a, m);
        assert(r.contains(w[m as int]));
        let b = choose|b: Seq<char>| r.contains(b) && #[trigger] edge(tasks, w.last(), b);
        assert(r.contains(b) && edge(tasks, w.last(), b));
        assert(walk(tasks, r, a, n) == w.push(b));
        assert forall|i: int| 0 <= i < n implies #[trigger] step(tasks, walk(tasks, r, a, n), i) by {
            if i < m {
                assert(step(tasks, w, i));
            }
        }
    }
}

/// Where each of finitely many tasks depends on another of them, there is a cycle.
pub proof fn lemma_stuck_cyclic(tasks: Tasks, r: Set<Seq<char>>, a: Seq<char>)
    requires
        r.finite(),
        r.contains(a),
        forall|x: Seq<char>| #[trigger]
            r.contains(x) ==> exists|b: Seq<char>| r.contains(b) && #[trigger] edge(tasks, x, b),
    ensures
        cyclic(tasks),
{
    let n = r.len();
    lemma_walk(tasks, r, a, n);
    let w = walk(tasks, r, a, n);
    if w.no_duplicates() {
        w.unique_seq_to_set();
        assert(w.to_set().subset_of(r)) by {
            assert forall|x: Seq<char>| w.to_set().contains(x) implies r.contains(x) by {
                let i = choose|i: int| 0 <= i < w.len() && w[i] == x;
                assert(r.contains(w[i]));
            }
        }
        vstd::set_lib::lemma_len_subset(w.to_set(), r);
        assert(false);
    }
    let (i, j) = choose|i: int, j: int|
        0 <= i < w.len() && 0 <= j < w.len() && i != j && w[i] == w[j];
    let lo = if i < j { i } else { j };
    let hi = if i < j { j } else { i };
    let p = w.subrange(lo, hi + 1);
    assert(is_path(tasks, p)) by {
        assert forall|k: int| 0 <= k < p.len() - 1 implies #[trigger] step(tasks, p, k) by {
            assert(step(tasks, w, lo + k));
            assert(p[k] == w[lo + k]);
            assert(p[k + 1] == w[lo + k + 1]);
        }
    }
    assert(p[0] == w[lo] && p.last() == w[hi]);
    assert(depends(tasks, w[lo], w[lo]));
}

// ---------------------------------------------------------------------------
// The graph
// ---------------------------------------------------------------------------
impl TaskGraph {
    /// Every task has its id among the ids in order of arrival.
    pub closed spec fn wf(&self) -> bool {
        forall|id: Seq<char>| #[trigger]
            self@.tasks.dom().contains(id) ==> self@.order.contains(id)
    }

    /// A graph without tasks.
    pub fn new() -> (r: Self)
        ensures
            r.wf(),
            r@.tasks == Map::<Seq<char>, NodeV>::empty(),
            r@.order == Seq::<Seq<char>>::empty(),
    {
        let r = TaskGraph { tasks: AssocMap::new(), insertion_order: Vec::new() };
        assert(r@.tasks =~= Map::<Seq<char>, NodeV>::empty());
        assert(r@.order =~= Seq::<Seq<char>>::empty());
        r
    }

    /// The position of the entry with the given id.
    fn index_of(&self, id: &String) -> (r: Option<usize>)
        ensures
            r matches Some(i) ==> i < self.tasks.order().len() && self.tasks.order()[i as int].0@
                == id@,
            r is None ==> forall|i: int|
                0 <= i < self.tasks.order().len() ==> (#[trigger] self.tasks.order()[i]).0@ != id@,
    {
        let n: usize = self.tasks.len();
        let mut i: usize = 0;
        while i < n
            invariant
                i <= n,
                n == self.tasks.order().len(),
                forall|j: int| 0 <= j < i ==> (#[trigger] self.tasks.order()[j]).0@ != id@,
            decreases n - i,
        {
            let (k, _) = self.tasks.entry(i);
            if k.same(id) {
                return Some(i);
            }
            i += 1;
        }
        None
    }

    /// Whether the task at `i` depends on a task of the graph that is not yet marked.
    fn waits_for_unmarked(&self, i: usize, marks: &Vec<bool>) -> (r: bool)
        requires
            i < self.tasks.order().len(),
            marks@.len() == self.tasks.order().len(),
        ensures
            r == exists|j: int|
                0 <= j < marks@.len() && !marks@[j] && #[trigger] self.dep_at(i as int, j),
    {
        self.tasks.facts();
        let (_, node) = self.tasks.entry(i);
        let mut d: usize = 0;
        while d < node.depends_on.len()
            invariant
                d <= node.depends_on@.len(),
                i < self.tasks.order().len(),
                marks@.len() == self.tasks.order().len(),
                *node == self.tasks.order()[i as int].1,
                crate::util::assoc::distinct_keys(self.tasks.order()),
                forall|e: int, j: int|
                    0 <= e < d && 0 <= j < marks@.len() && #[trigger] node.depends_on@[e]@
                        == #[trigger] self.tasks.order()[j].0@ ==> marks@[j],
            decreases node.depends_on@.len() - d,
        {
            match self.index_of(&node.depends_on[d]) {
                Some(j) => {
                    if !marks[j] {
                        assert(text::strings_view(node.depends_on@)[d as int] == self.tasks.order()[j as int].0@);
                        assert(self.dep_at(i as int, j as int));
                        return true;
                    }
                    assert forall|q: int|
                        0 <= q < marks@.len() && node.depends_on@[d as int]@
                            == #[trigger] self.tasks.order()[q].0@ implies marks@[q] by {
                        assert(q == j);
                    }
                },
                None => {},
            }
            d += 1;
        }
        proof {
            assert forall|j: int| 0 <= j < marks@.len() && #[trigger] self.dep_at(i as int, j) implies marks@[j] by {
                let e = choose|e: int|
                    0 <= e < node.depends_on@.len() && text::strings_view(node.depends_on@)[e]
                        == self.tasks.order()[j].0@;
                assert(node.depends_on@[e]@ == self.tasks.order()[j].0@);
            }
        }
        false
    }

    /// The task at `i` names the task at `j` as one it depends on.
    spec fn dep_at(&self, i: int, j: int) -> bool {
        text::strings_view(self.tasks.order()[i].1.depends_on@).contains(self.tasks.order()[j].0@)
    }

    /// Whether some task depends on itself. Tasks whose dependencies are all sorted out are
    /// taken away until none is left or none can be taken.
    #[verifier::rlimit(60)]
    #[verifier::spinoff_prover]
    fn detect_cycle(&self) -> (r: bool)
        ensures
            r == cyclic(self@.tasks),
    {
        self.tasks.facts();
        let n: usize = self.tasks.len();
        let mut done: Vec<bool> = Vec::new();
        let mut k: usize = 0;
        while k < n
            invariant
                k <= n,
                done@.len() == k,
                forall|j: int| 0 <= j < k ==> !#[trigger] done@[j],
            decreases n - k,
        {
            done.push(false);
            k += 1;
        }
        proof {
            lemma_count_none(done@);
        }
        let ghost ord = self.tasks.order();
        let ghost mut rank: Map<Seq<char>, nat> = Map::empty();
        let mut processed: usize = 0;
        while processed < n
            invariant
                n == ord.len(),
                ord == self.tasks.order(),
                processed <= n,
                done@.len() == n,
                count_true(done@) == processed,
                crate::util::assoc::distinct_keys(ord),
                forall|i: int| 0 <= i < n && #[trigger] done@[i] ==> rank[ord[i].0@] < processed,
                forall|i: int, j: int|
                    0 <= i < n && 0 <= j < n && done@[i] && #[trigger] self.dep_at(i, j)
                        ==> done@[j] && rank[ord[j].0@] < rank[ord[i].0@],
                forall|i: int|
                    0 <= i < ord.len() ==> self.tasks@.dom().contains(
                        (#[trigger] ord[i]).0.id(),
                    ) && self.tasks@[ord[i].0.id()] == ord[i].1,
                forall|q: Seq<char>| #[trigger]
                    self.tasks@.dom().contains(q) ==> exists|i: int|
                        0 <= i < ord.len() && (#[trigger] ord[i]).0.id() == q,
            decreases n - processed,
        {
            let mut i: usize = 0;
            let mut found: bool = false;
            while i < n && !found
                invariant
                    n == ord.len(),
                    ord == self.tasks.order(),
                    i <= n,
                    done@.len() == n,
                    found ==> i < n && !done@[i as int] && !exists|j: int|
                        0 <= j < done@.len() && !done@[j] && #[trigger] self.dep_at(i as int, j),
                    !found ==> forall|a: int|
                        0 <= a < i && !#[trigger] done@[a] ==> exists|j: int|
                            0 <= j < done@.len() && !done@[j] && #[trigger] self.dep_at(a, j),
                decreases n - i, if found { 0int } else { 1int },
            {
                if !done[i] && !self.waits_for_unmarked(i, &done) {
                    found = true;
                } else {
                    i += 1;
                }
            }
            if !found {
                proof {
                    lemma_count_false(done@);
                    let u = choose|u: int| 0 <= u < done@.len() && !done@[u];
                    self.lemma_stuck(done@, u);
                }
                return true;
            }
            proof {
                lemma_count_set(done@, i as int);
                rank = rank.insert(ord[i as int].0@, processed as nat);
            }
            done.set(i, true);
            processed += 1;
        }
        proof {
            lemma_count_all(done@);
            assert forall|a: Seq<char>, b: Seq<char>| #[trigger]
                edge(self@.tasks, a, b) && self@.tasks.dom().contains(b) implies rank[b] < rank[a] by {
                assert(self.tasks@.dom().contains(a) && self.tasks@.dom().contains(b));
                let i = choose|i: int| 0 <= i < ord.len() && (#[trigger] ord[i]).0.id() == a;
                let j = choose|j: int| 0 <= j < ord.len() && (#[trigger] ord[j]).0.id() == b;
                assert(self.dep_at(i, j));
            }
            lemma_ranked_acyclic(self@.tasks, rank);
        }
        false
    }

    /// Where every task not done waits for another one not done, there is a cycle.
    proof fn lemma_stuck(&self, done: Seq<bool>, u: int)
        requires
            done.len() == self.tasks.order().len(),
            0 <= u < done.len(),
            !done[u],
            forall|a: int|
                0 <= a < done.len() && !#[trigger] done[a] ==> exists|j: int|
                    0 <= j < done.len() && !done[j] && #[trigger] self.dep_at(a, j),
            forall|i: int|
                0 <= i < self.tasks.order().len() ==> self.tasks@.dom().contains(
                    (#[trigger] self.tasks.order()[i]).0.id(),
                ) && self.tasks@[self.tasks.order()[i].0.id()] == self.tasks.order()[i].1,
        ensures
            cyclic(self@.tasks),
    {
        let ord = self.tasks.order();
        let ids = Seq::new(ord.len(), |i: int| ord[i].0@);
        let r = Set::new(
            |x: Seq<char>| exists|i: int| 0 <= i < ids.len() && !done[i] && #[trigger] ids[i] == x,
        );
        assert(r.subset_of(ids.to_set())) by {
            assert forall|x: Seq<char>| r.contains(x) implies ids.to_set().contains(x) by {
                let i = choose|i: int| 0 <= i < ids.len() && !done[i] && #[trigger] ids[i] == x;
                assert(ids.contains(x));
            }
        }
        vstd::seq_lib::seq_to_set_is_finite(ids);
        vstd::set_lib::lemma_set_subset_finite(ids.to_set(), r);
        assert(ids[u] == ord[u].0@);
        assert(r.contains(ids[u]));
        assert forall|x: Seq<char>| #[trigger] r.contains(x) implies exists|b: Seq<char>|
            r.contains(b) && #[trigger] edge(self@.tasks, x, b) by {
            let i = choose|i: int| 0 <= i < ids.len() && !done[i] && #[trigger] ids[i] == x;
            let j = choose|j: int| 0 <= j < done.len() && !done[j] && #[trigger] self.dep_at(i, j);
            assert(ord[i].0.id() == x);
            assert(r.contains(ids[j]));
            assert(edge(self@.tasks, x, ids[j]));
        }
        lemma_stuck_cyclic(self@.tasks, r, ids[u]);
    }
}

/// The length of the named front is where the first task without an id stands.
proof fn lemma_named_prefix(tasks: Seq<JsonV>, n: nat)
    requires
        n <= tasks.len(),
        forall|i: int| 0 <= i < n ==> (#[trigger] tasks[i]).get_text("task_id"@) is Some,
        n < tasks.len() ==> tasks[n as int].get_text("task_id"@) is None,
    ensures
        named_prefix(tasks) == n,
    decreases n,
{
    if n > 0 {
        let rest = tasks.drop_first();
        assert forall|i: int| 0 <= i < n - 1 implies (#[trigger] rest[i]).get_text("task_id"@) is Some by {
            assert(rest[i] == tasks[i + 1]);
        }
        assert(tasks[0].get_text("task_id"@) is Some);
        lemma_named_prefix(rest, (n - 1) as nat);
    }
}

/// The arrival of tasks adds their ids at the end of the order.
proof fn lemma_with_tasks_order(g: GraphV, tasks: Seq<JsonV>)
    ensures
        with_tasks(g, tasks).order == g.order + ids_of(tasks),
        forall|id: Seq<char>| #[trigger]
            with_tasks(g, tasks).tasks.dom().contains(id) ==> g.tasks.dom().contains(id)
                || ids_of(tasks).contains(id),
    decreases tasks.len(),
{
    if tasks.len() == 0 {
        assert(g.order + ids_of(tasks) =~= g.order);
    } else {
        let t = tasks.drop_last();
        lemma_with_tasks_order(g, t);
        assert(ids_of(tasks) =~= ids_of(t).push(tasks.last().get_text("task_id"@)->0));
        assert(g.order + ids_of(tasks) =~= (g.order + ids_of(t)).push(
            tasks.last().get_text("task_id"@)->0,
        ));
        assert forall|id: Seq<char>| #[trigger]
            with_tasks(g, tasks).tasks.dom().contains(id) implies g.tasks.dom().contains(id)
            || ids_of(tasks).contains(id) by {
            if id == tasks.last().get_text("task_id"@)->0 {
                assert(ids_of(tasks)[tasks.len() - 1] == id);
            } else if ids_of(t).contains(id) {
                let i = choose|i: int| 0 <= i < ids_of(t).len() && ids_of(t)[i] == id;
                assert(ids_of(tasks)[i] == id);
            }
        }
    }
}

impl TaskGraph {
    /// Adds tasks read from JSON values. Each needs a string `task_id`; `depends_on` may list
    /// the ids of tasks that it waits for. Where the graph would then hold a cycle, none of
    /// them stays. Where a task has no id, those before it stay.
    pub fn add_tasks(&mut self, tasks: Vec<Json>) -> (r: Result<(), String>)
        requires
            old(self).wf(),
        ensures
            final(self).wf(),
            ({
                let ts = json::array_view(tasks@);
                let g = with_tasks(old(self)@, ts);
                if !all_named(ts) {
                    &&& r matches Err(e) && e@ == "Task missing task_id"@
                    &&& final(self)@ == with_tasks(old(self)@, ts.take(named_prefix(ts) as int))
                } else if cyclic(g.tasks) {
                    &&& r matches Err(e) && e@ == "Cycle detected in task dependencies"@
                    &&& final(self)@.tasks == g.tasks.remove_keys(ids_of(ts).to_set())
                    &&& final(self)@.order == old(self)@.order
                } else {
                    &&& r is Ok
                    &&& final(self)@ == g
                }
            }),
    {
        let start_idx: usize = self.insertion_order.len();
        let mut added_ids: Vec<String> = Vec::new();
        let ghost ts = json::array_view(tasks@);
        let ghost g0 = self@;
        assert(ts.take(0) =~= Seq::<JsonV>::empty());
        assert(text::strings_view(added_ids@) =~= ids_of(ts.take(0)));
        for task in it: tasks
            invariant
                it.seq() == tasks@,
                ts == json::array_view(tasks@),
                self.wf(),
                self@ == with_tasks(g0, ts.take(it.index())),
                text::strings_view(added_ids@) == ids_of(ts.take(it.index())),
                forall|i: int|
                    0 <= i < it.index() ==> (#[trigger] ts[i]).get_text("task_id"@) is Some,
                g0 == old(self)@,
                start_idx == g0.order.len(),
        {
            let ghost n = it.index();
            assert(task@ == ts[n]);
            let task_id: String = match task.get_str("task_id") {
                Some(s) => s.clone(),
                None => {
                    proof {
                        lemma_named_prefix(ts, n as nat);
                        assert(ts[n].get_text("task_id"@) is None);
                    }
                    return Err("Task missing task_id".to_owned());
                },
            };
            let depends_on: Vec<String> = match task.get("depends_on") {
                Some(v) => match v.as_array() {
                    Some(a) => collect_texts(a),
                    None => Vec::new(),
                },
                None => Vec::new(),
            };
            assert(text::strings_view(depends_on@) =~= deps_of(task@));
            let status: TaskStatus = if depends_on.is_empty() {
                TaskStatus::Ready
            } else {
                TaskStatus::Pending
            };
            let node = TaskNode { task, depends_on, status };
            let ghost before = self@;
            let ghost ids_before = added_ids@;
            self.tasks.insert(task_id.clone(), node);
            self.insertion_order.push(task_id.clone());
            added_ids.push(task_id);
            proof {
                let t = ts.take(n + 1);
                assert(t.drop_last() =~= ts.take(n));
                assert(t.last() == ts[n]);
                assert(self@.tasks =~= before.tasks.insert(task_id@, arriving(ts[n])));
                assert(self@.order =~= before.order.push(task_id@));
                assert(self@ == with_tasks(g0, t));
                assert(text::strings_view(added_ids@) =~= text::strings_view(ids_before).push(task_id@));
                assert(ids_of(t) =~= ids_of(ts.take(n)).push(task_id@));
                assert forall|id: Seq<char>| #[trigger]
                    self@.tasks.dom().contains(id) implies self@.order.contains(id) by {
                    if id == task_id@ {
                        assert(self@.order[before.order.len() as int] == id);
                    } else {
                        let i = choose|i: int| 0 <= i < before.order.len() && before.order[i] == id;
                        assert(self@.order[i] == id);
                    }
                }
            }
        }
        assert(ts.take(tasks@.len() as int) =~= ts);
        if self.detect_cycle() {
            let ghost g = self@;
            let mut k: usize = 0;
            assert(g.tasks =~= g.tasks.remove_keys(text::strings_view(added_ids@).take(0).to_set()));
            while k < added_ids.len()
                invariant
                    k <= added_ids@.len(),
                    self@.order == g.order,
                    self@.tasks == g.tasks.remove_keys(
                        text::strings_view(added_ids@).take(k as int).to_set(),
                    ),
                decreases added_ids@.len() - k,
            {
                let ghost before = self@;
                let ghost ids = text::strings_view(added_ids@);
                self.tasks.remove(&added_ids[k]);
                proof {
                    assert(self@.tasks =~= before.tasks.remove(ids[k as int]));
                    assert(ids.take(k as int + 1) =~= ids.take(k as int).push(ids[k as int]));
                    assert(ids.take(k as int + 1).to_set() =~= ids.take(k as int).to_set().insert(
                        ids[k as int],
                    )) by {
                        broadcast use vstd::seq_lib::group_seq_properties;
                    }
                    assert(self@.tasks =~= g.tasks.remove_keys(ids.take(k as int + 1).to_set()));
                }
                k += 1;
            }
            proof {
                lemma_with_tasks_order(g0, ts);
                assert(self@.order.len() >= start_idx);
            }
            self.insertion_order.truncate(start_idx);
            proof {
                let ids = text::strings_view(added_ids@);
                assert(ids.take(k as int) =~= ids);
                assert(self@.order =~= g.order.take(start_idx as int));
                assert(self@.order =~= g0.order);
                assert forall|id: Seq<char>| #[trigger]
                    self@.tasks.dom().contains(id) implies self@.order.contains(id) by {
                    assert(g.tasks.dom().contains(id) && !ids.to_set().contains(id));
                    assert(!ids.contains(id));
                    assert(g0.tasks.dom().contains(id));
                }
            }
            return Err("Cycle detected in task dependencies".to_owned());
        }
        Ok(())
    }

    /// The ready tasks, in order of arrival.
    pub fn ready_tasks(&self) -> (r: Vec<&Json>)
        ensures
            r@.map_values(|j: &Json| j@) == ready_list(self@.tasks, self@.order),
    {
        let mut out: Vec<&Json> = Vec::new();
        let mut i: usize = 0;
        let ghost order = self@.order;
        assert(order.take(0) =~= Seq::<Seq<char>>::empty());
        assert(out@.map_values(|j: &Json| j@) =~= Seq::<JsonV>::empty());
        while i < self.insertion_order.len()
            invariant
                i <= self.insertion_order@.len(),
                order == self@.order,
                order == text::strings_view(self.insertion_order@),
                out@.map_values(|j: &Json| j@) == ready_list(self@.tasks, order.take(i as int)),
            decreases self.insertion_order@.len() - i,
        {
            let ghost before = out@;
            assert(order.take(i as int + 1).drop_last() =~= order.take(i as int));
            assert(order.take(i as int + 1).last() == self.insertion_order@[i as int]@);
            if let Some(node) = self.tasks.get(&self.insertion_order[i]) {
                if node.status == TaskStatus::Ready {
                    out.push(&node.task);
                    assert(out@.map_values(|j: &Json| j@) =~= before.map_values(|j: &Json| j@).push(
                        node.task@,
                    ));
                }
            }
            i += 1;
        }
        assert(order.take(i as int) =~= order);
        out
    }

    /// Sets the status of one task; nothing happens where the graph has no such task.
    pub fn set_status(&mut self, task_id: &str, status: TaskStatus)
        requires
            old(self).wf(),
        ensures
            final(self).wf(),
            final(self)@.order == old(self)@.order,
            final(self)@.tasks == with_status(
                old(self)@.tasks,
                |id: Seq<char>| id == task_id@,
                status,
            ),
    {
        let key: String = task_id.to_owned();
        let ghost before = self@.tasks;
        match self.tasks.remove(&key) {
            Some(node) => {
                let TaskNode { task, depends_on, status: _ } = node;
                self.tasks.insert(key, TaskNode { task, depends_on, status });
            },
            None => {},
        }
        proof {
            let after = with_status(before, |id: Seq<char>| id == task_id@, status);
            assert(self@.tasks =~= after);
            assert(self@.tasks.dom() =~= before.dom());
        }
    }

    /// Sets the status of every task whose id is listed.
    fn set_all(&mut self, ids: &Vec<String>, status: TaskStatus)
        requires
            old(self).wf(),
        ensures
            final(self).wf(),
            final(self)@.order == old(self)@.order,
            final(self)@.tasks == with_status(
                old(self)@.tasks,
                |id: Seq<char>| text::strings_view(ids@).contains(id),
                status,
            ),
    {
        let mut i: usize = 0;
        let ghost g0 = self@;
        let ghost all = text::strings_view(ids@);
        assert(self@.tasks =~= with_status(g0.tasks, |id: Seq<char>| all.take(0).contains(id), status));
        while i < ids.len()
            invariant
                i <= ids@.len(),
                self.wf(),
                all == text::strings_view(ids@),
                self@.order == g0.order,
                self@.tasks == with_status(
                    g0.tasks,
                    |id: Seq<char>| all.take(i as int).contains(id),
                    status,
                ),
            decreases ids@.len() - i,
        {
            let ghost before = self@.tasks;
            self.set_status(ids[i].as_str(), status);
            proof {
                let t = all.take(i as int + 1);
                assert(t =~= all.take(i as int).push(all[i as int]));
                assert forall|id: Seq<char>| #[trigger] t.contains(id) == (all.take(
                    i as int,
                ).contains(id) || id == all[i as int]) by {
                    if t.contains(id) {
                        let q = choose|q: int| 0 <= q < t.len() && t[q] == id;
                        if q < i {
                            assert(all.take(i as int)[q] == id);
                        }
                    }
                    if all.take(i as int).contains(id) {
                        let q = choose|q: int| 0 <= q < i && all.take(i as int)[q] == id;
                        assert(t[q] == id);
                    }
                    assert(t[i as int] == all[i as int]);
                }
                assert(self@.tasks =~= with_status(g0.tasks, |id: Seq<char>| t.contains(id), status));
            }
            i += 1;
        }
        assert(all.take(i as int) =~= all);
    }

    /// The task is running now, and so are all that were ready: they run in parallel.
    pub fn mark_running(&mut self, task_id: &str)
        requires
            old(self).wf(),
        ensures
            final(self).wf(),
            final(self)@.order == old(self)@.order,
            final(self)@.tasks == running(old(self)@.tasks, task_id@),
    {
        self.tasks.facts();
        let ghost g0 = self@;
        let ghost ord = self.tasks.order();
        let ghost pick = |n: TaskNode| n.status == TaskStatus::Ready;
        let mut ids: Vec<String> = Vec::new();
        let n: usize = self.tasks.len();
        let mut i: usize = 0;
        assert(text::strings_view(ids@) =~= Seq::<Seq<char>>::empty());
        while i < n
            invariant
                i <= n,
                n == ord.len(),
                ord == self.tasks.order(),
                g0 == self@,
                pick == (|n: TaskNode| n.status == TaskStatus::Ready),
                forall|id: Seq<char>| #[trigger]
                    text::strings_view(ids@).contains(id) <==> picked(ord, i as int, pick, id),
            decreases n - i,
        {
            let ghost before = ids@;
            let (k, node) = self.tasks.entry(i);
            if node.status == TaskStatus::Ready {
                ids.push(k.clone());
                assert(text::strings_view(ids@) =~= text::strings_view(before).push(k@));
            }
            proof {
                assert forall|id: Seq<char>| #[trigger] text::strings_view(ids@).contains(id) <==> picked(
                    ord,
                    i as int + 1,
                    pick,
                    id,
                ) by {
                    lemma_picked_step(ord, i as int, pick, id);
                    lemma_push_contains(text::strings_view(before), k@, id);
                    assert(text::strings_view(before).contains(id) <==> picked(ord, i as int, pick, id));
                }
            }
            i += 1;
        }
        let ghost ready = text::strings_view(ids@);
        let ghost self_tasks = self.tasks@;
        ids.push(task_id.to_owned());
        self.set_all(&ids, TaskStatus::Running);
        proof {
            let all = text::strings_view(ids@);
            assert forall|id: Seq<char>| g0.tasks.dom().contains(id) implies #[trigger] all.contains(
                id,
            ) == (id == task_id@ || g0.tasks[id].status == TaskStatus::Ready) by {
                assert(all =~= ready.push(task_id@));
                lemma_push_contains(ready, task_id@, id);
                lemma_picked_node(ord, self_tasks, pick, id);
            }
            assert(self@.tasks =~= with_status(
                g0.tasks,
                |id: Seq<char>| id == task_id@ || g0.tasks[id].status == TaskStatus::Ready,
                TaskStatus::Running,
            ));
        }
    }

    /// Whether every dependency of a node is a completed task of the graph.
    fn all_completed(&self, node: &TaskNode) -> (r: bool)
        ensures
            r == deps_completed(self@.tasks, node@),
    {
        let mut i: usize = 0;
        while i < node.depends_on.len()
            invariant
                i <= node.depends_on@.len(),
                forall|j: int|
                    0 <= j < i ==> self@.tasks.dom().contains(#[trigger] node@.depends_on[j])
                        && self@.tasks[node@.depends_on[j]].status == TaskStatus::Completed,
            decreases node.depends_on@.len() - i,
        {
            let ghost d = node@.depends_on[i as int];
            match self.tasks.get(&node.depends_on[i]) {
                Some(dep) => {
                    if dep.status != TaskStatus::Completed {
                        assert(self@.tasks[d].status != TaskStatus::Completed);
                        return false;
                    }
                },
                None => {
                    assert(!self@.tasks.dom().contains(d));
                    return false;
                },
            }
            i += 1;
        }
        true
    }

    /// The task is completed. Pending tasks that now have all their dependencies completed
    /// become ready.
    pub fn mark_completed(&mut self, task_id: &str)
        requires
            old(self).wf(),
        ensures
            final(self).wf(),
            final(self)@.order == old(self)@.order,
            final(self)@.tasks == completed(old(self)@.tasks, task_id@),
    {
        self.set_status(task_id, TaskStatus::Completed);
        self.tasks.facts();
        let ghost g0 = self@;
        let ghost ord = self.tasks.order();
        let ghost pick = |n: TaskNode| n.status == TaskStatus::Pending && deps_completed(g0.tasks, n@);
        let mut ids: Vec<String> = Vec::new();
        let n: usize = self.tasks.len();
        let mut i: usize = 0;
        assert(text::strings_view(ids@) =~= Seq::<Seq<char>>::empty());
        while i < n
            invariant
                i <= n,
                n == ord.len(),
                ord == self.tasks.order(),
                g0 == self@,
                pick == (|n: TaskNode| n.status == TaskStatus::Pending && deps_completed(g0.tasks, n@)),
                forall|id: Seq<char>| #[trigger]
                    text::strings_view(ids@).contains(id) <==> picked(ord, i as int, pick, id),
            decreases n - i,
        {
            let ghost before = ids@;
            let (k, node) = self.tasks.entry(i);
            if node.status == TaskStatus::Pending && self.all_completed(node) {
                ids.push(k.clone());
                assert(text::strings_view(ids@) =~= text::strings_view(before).push(k@));
            }
            proof {
                assert forall|id: Seq<char>| #[trigger] text::strings_view(ids@).contains(id) <==> picked(
                    ord,
                    i as int + 1,
                    pick,
                    id,
                ) by {
                    lemma_picked_step(ord, i as int, pick, id);
                    lemma_push_contains(text::strings_view(before), k@, id);
                    assert(text::strings_view(before).contains(id) <==> picked(ord, i as int, pick, id));
                }
            }
            i += 1;
        }
        let ghost self_tasks = self.tasks@;
        self.set_all(&ids, TaskStatus::Ready);
        proof {
            let all = text::strings_view(ids@);
            assert forall|id: Seq<char>| g0.tasks.dom().contains(id) implies #[trigger] all.contains(
                id,
            ) == (g0.tasks[id].status == TaskStatus::Pending && deps_completed(
                g0.tasks,
                g0.tasks[id],
            )) by {
                lemma_picked_node(ord, self_tasks, pick, id);
            }
            assert(self@.tasks =~= with_status(
                g0.tasks,
                |id: Seq<char>|
                    g0.tasks[id].status == TaskStatus::Pending && deps_completed(
                        g0.tasks,
                        g0.tasks[id],
                    ),
                TaskStatus::Ready,
            ));
        }
    }

    /// The task has failed.
    pub fn mark_failed(&mut self, task_id: &str)
        requires
            old(self).wf(),
        ensures
            final(self).wf(),
            final(self)@.order == old(self)@.order,
            final(self)@.tasks == failed(old(self)@.tasks, task_id@),
    {
        self.set_status(task_id, TaskStatus::Failed);
    }

    /// The status of a task of the graph.
    pub fn task_status(&self, task_id: &str) -> (r: Option<&TaskStatus>)
        ensures
            r is Some <==> self@.tasks.dom().contains(task_id@),
            r matches Some(st) ==> *st == self@.tasks[task_id@].status,
    {
        match self.tasks.get_str(task_id) {
            Some(n) => Some(&n.status),
            None => None,
        }
    }

    /// Whether every task is over: completed, failed or skipped.
    pub fn is_complete(&self) -> (r: bool)
        ensures
            r == forall|id: Seq<char>| #[trigger]
                self@.tasks.dom().contains(id) ==> is_over(self@.tasks[id].status),
    {
        self.tasks.facts();
        let ghost ord = self.tasks.order();
        let n: usize = self.tasks.len();
        let mut i: usize = 0;
        while i < n
            invariant
                i <= n,
                n == ord.len(),
                ord == self.tasks.order(),
                forall|j: int| 0 <= j < i ==> is_over((#[trigger] ord[j]).1.status),
            decreases n - i,
        {
            let (k, node) = self.tasks.entry(i);
            let over: bool = node.status == TaskStatus::Completed || node.status
                == TaskStatus::Failed || node.status == TaskStatus::Skipped;
            if !over {
                assert(self@.tasks.dom().contains(k@) && !is_over(self@.tasks[k@].status));
                return false;
            }
            i += 1;
        }
        proof {
            assert forall|id: Seq<char>| #[trigger] self@.tasks.dom().contains(id) implies is_over(
                self@.tasks[id].status,
            ) by {
                assert(self.tasks@.dom().contains(id));
                let j = choose|j: int| 0 <= j < ord.len() && (#[trigger] ord[j]).0.id() == id;
                assert(is_over(ord[j].1.status));
            }
        }
        true
    }

    /// How many tasks are pending.
    pub fn pending_count(&self) -> (r: usize)
        ensures
            r == pending_ids(self@.tasks).len(),
    {
        self.tasks.facts();
        let ghost ord = self.tasks.order();
        let n: usize = self.tasks.len();
        let mut i: usize = 0;
        let mut count: usize = 0;
        let ghost mut seen: Set<Seq<char>> = Set::empty();
        while i < n
            invariant
                i <= n,
                count <= i,
                n == ord.len(),
                ord == self.tasks.order(),
                seen.finite(),
                seen.len() == count,
                crate::util::assoc::distinct_keys(ord),
                forall|id: Seq<char>| #[trigger]
                    seen.contains(id) <==> exists|j: int|
                        0 <= j < i && (#[trigger] ord[j]).0@ == id && ord[j].1.status
                            == TaskStatus::Pending,
            decreases n - i,
        {
            let (k, node) = self.tasks.entry(i);
            let ghost before = seen;
            if node.status == TaskStatus::Pending {
                proof {
                    if seen.contains(k@) {
                        let j = choose|j: int|
                            0 <= j < i && (#[trigger] ord[j]).0@ == k@ && ord[j].1.status
                                == TaskStatus::Pending;
                        assert(ord[j].0.id() == ord[i as int].0.id());
                    }
                    seen = seen.insert(k@);
                }
                count += 1;
            }
            assert forall|id: Seq<char>| #[trigger] seen.contains(id) <==> exists|j: int|
                0 <= j < i + 1 && (#[trigger] ord[j]).0@ == id && ord[j].1.status
                    == TaskStatus::Pending by {
                if before.contains(id) {
                    let j = choose|j: int|
                        0 <= j < i && (#[trigger] ord[j]).0@ == id && ord[j].1.status
                            == TaskStatus::Pending;
                    assert(ord[j].0@ == id);
                }
                if seen.contains(id) && !before.contains(id) {
                    assert(ord[i as int].0@ == id);
                }
            }
            i += 1;
        }
        proof {
            assert(seen =~= pending_ids(self@.tasks)) by {
                assert forall|id: Seq<char>| seen.contains(id) == pending_ids(
                    self@.tasks,
                ).contains(id) by {
                    if seen.contains(id) {
                        let j = choose|j: int|
                            0 <= j < n && (#[trigger] ord[j]).0@ == id && ord[j].1.status
                                == TaskStatus::Pending;
                        assert(self.tasks@.dom().contains(ord[j].0.id()));
                    }
                    if pending_ids(self@.tasks).contains(id) {
                        assert(self.tasks@.dom().contains(id));
                        let j = choose|j: int| 0 <= j < ord.len() && (#[trigger] ord[j]).0.id() == id;
                        assert(ord[j].0@ == id);
                    }
                }
            }
        }
        count
    }
}

/// The ids of the pending tasks.
pub open spec fn pending_ids(tasks: Tasks) -> Set<Seq<char>> {
    Set::new(|id: Seq<char>| tasks.dom().contains(id) && tasks[id].status == TaskStatus::Pending)
}

/// One of the first `i` entries has the id `id` and a node that `pick` takes.
spec fn picked(
    ord: Seq<(String, TaskNode)>,
    i: int,
    pick: spec_fn(TaskNode) -> bool,
    id: Seq<char>,
) -> bool {
    exists|j: int| 0 <= j < i && (#[trigger] ord[j]).0@ == id && pick(ord[j].1)
}

proof fn lemma_picked_step(
    ord: Seq<(String, TaskNode)>,
    i: int,
    pick: spec_fn(TaskNode) -> bool,
    id: Seq<char>,
)
    requires
        0 <= i < ord.len(),
    ensures
        picked(ord, i + 1, pick, id) <==> picked(ord, i, pick, id) || (ord[i].0@ == id && pick(
            ord[i].1,
        )),
{
    if picked(ord, i + 1, pick, id) {
        let j = choose|j: int| 0 <= j < i + 1 && (#[trigger] ord[j]).0@ == id && pick(ord[j].1);
        if j < i {
            assert(picked(ord, i, pick, id));
        }
    }
    if picked(ord, i, pick, id) {
        let j = choose|j: int| 0 <= j < i && (#[trigger] ord[j]).0@ == id && pick(ord[j].1);
        assert(ord[j].0@ == id);
    }
    if ord[i].0@ == id && pick(ord[i].1) {
        assert(picked(ord, i + 1, pick, id));
    }
}

/// Among all entries an id is picked where its node is.
proof fn lemma_picked_node(
    ord: Seq<(String, TaskNode)>,
    m: Map<Seq<char>, TaskNode>,
    pick: spec_fn(TaskNode) -> bool,
    id: Seq<char>,
)
    requires
        m.dom().contains(id),
        forall|i: int|
            0 <= i < ord.len() ==> m.dom().contains((#[trigger] ord[i]).0.id()) && m[ord[i].0.id()]
                == ord[i].1,
        forall|k: Seq<char>| #[trigger]
            m.dom().contains(k) ==> exists|i: int| 0 <= i < ord.len() && (#[trigger] ord[i]).0.id()
                == k,
    ensures
        picked(ord, ord.len() as int, pick, id) <==> pick(m[id]),
{
    let j = choose|j: int| 0 <= j < ord.len() && (#[trigger] ord[j]).0.id() == id;
    assert(m[ord[j].0.id()] == ord[j].1);
    if picked(ord, ord.len() as int, pick, id) {
        let q = choose|q: int| 0 <= q < ord.len() && (#[trigger] ord[q]).0@ == id && pick(ord[q].1);
        assert(m[ord[q].0.id()] == ord[q].1);
    }
    if pick(m[id]) {
        assert(ord[j].0@ == id && pick(ord[j].1));
    }
}

proof fn lemma_push_contains(s: Seq<Seq<char>>, x: Seq<char>, id: Seq<char>)
    ensures
        s.push(x).contains(id) <==> s.contains(id) || x == id,
{
    broadcast use vstd::seq_lib::group_seq_properties;
}

/// A step in front of a way from `b` to `t` makes a way from `a` to `t`.
proof fn lemma_depends_step(tasks: Tasks, a: Seq<char>, b: Seq<char>, t: Seq<char>)
    requires
        edge(tasks, a, b),
        b == t || depends(tasks, b, t),
    ensures
        depends(tasks, a, t),
{
    if b == t {
        let p = seq![a, t];
        assert(is_path(tasks, p));
        assert(p[0] == a && p.last() == t);
    } else {
        let q = choose|q: Seq<Seq<char>>| #[trigger] is_path(tasks, q) && q[0] == b && q.last() == t;
        let p = seq![a] + q;
        assert forall|i: int| 0 <= i < p.len() - 1 implies #[trigger] step(tasks, p, i) by {
            if i > 0 {
                assert(step(tasks, q, i - 1));
                assert(p[i] == q[i - 1] && p[i + 1] == q[i]);
            } else {
                assert(p[0] == a && p[1] == q[0]);
            }
        }
        assert(is_path(tasks, p));
        assert(p[0] == a && p.last() == t);
    }
}

/// A set of ids that takes in every task with a dependency on `t` or on one of its own
/// holds every task that depends on `t`.
proof fn lemma_closed_holds(tasks: Tasks, t: Seq<char>, inside: spec_fn(Seq<char>) -> bool, p: Seq<Seq<char>>, k: int)
    requires
        is_path(tasks, p),
        p.last() == t,
        0 <= k < p.len() - 1,
        forall|a: Seq<char>, b: Seq<char>| #[trigger]
            edge(tasks, a, b) && (b == t || inside(b)) ==> inside(a),
    ensures
        inside(p[k]),
    decreases p.len() - k,
{
    assert(step(tasks, p, k));
    if k < p.len() - 2 {
        lemma_closed_holds(tasks, t, inside, p, k + 1);
    }
    assert(edge(tasks, p[k], p[k + 1]));
}

impl TaskGraph {
    /// Whether the task at `i` depends on `t` or on a marked task.
    fn waits_for_marked(&self, i: usize, t: &String, marks: &Vec<bool>) -> (r: bool)
        requires
            i < self.tasks.order().len(),
            marks@.len() == self.tasks.order().len(),
        ensures
            r == (text::strings_view(self.tasks.order()[i as int].1.depends_on@).contains(t@)
                || exists|j: int|
                0 <= j < marks@.len() && marks@[j] && #[trigger] self.dep_at(i as int, j)),
    {
        self.tasks.facts();
        let (_, node) = self.tasks.entry(i);
        let ghost deps = text::strings_view(node.depends_on@);
        let mut d: usize = 0;
        while d < node.depends_on.len()
            invariant
                d <= node.depends_on@.len(),
                i < self.tasks.order().len(),
                marks@.len() == self.tasks.order().len(),
                *node == self.tasks.order()[i as int].1,
                deps == text::strings_view(node.depends_on@),
                crate::util::assoc::distinct_keys(self.tasks.order()),
                forall|e: int| 0 <= e < d ==> #[trigger] deps[e] != t@,
                forall|e: int, j: int|
                    0 <= e < d && 0 <= j < marks@.len() && #[trigger] deps[e]
                        == #[trigger] self.tasks.order()[j].0@ ==> !marks@[j],
            decreases node.depends_on@.len() - d,
        {
            assert(deps[d as int] == node.depends_on@[d as int]@);
            if node.depends_on[d].same(t) {
                assert(deps.contains(t@));
                return true;
            }
            match self.index_of(&node.depends_on[d]) {
                Some(j) => {
                    if marks[j] {
                        assert(deps[d as int] == self.tasks.order()[j as int].0@);
                        assert(self.dep_at(i as int, j as int));
                        return true;
                    }
                    assert forall|q: int|
                        0 <= q < marks@.len() && deps[d as int]
                            == #[trigger] self.tasks.order()[q].0@ implies !marks@[q] by {
                        assert(q == j);
                    }
                },
                None => {},
            }
            d += 1;
        }
        proof {
            assert forall|j: int| 0 <= j < marks@.len() && #[trigger] self.dep_at(i as int, j) implies !marks@[j] by {
                let e = choose|e: int|
                    0 <= e < deps.len() && deps[e] == self.tasks.order()[j].0@;
                assert(deps[e] == self.tasks.order()[j].0@);
            }
        }
        false
    }

    /// Every task that depends on `task_id`, directly or through others, is skipped.
    pub fn fail_dependents(&mut self, task_id: &str)
        requires
            old(self).wf(),
        ensures
            final(self).wf(),
            final(self)@.order == old(self)@.order,
            final(self)@.tasks == skipped(old(self)@.tasks, task_id@),
    {
        self.tasks.facts();
        let t: String = task_id.to_owned();
        let ghost g0 = self@;
        let ghost ord = self.tasks.order();
        let ghost m = self.tasks@;
        let n: usize = self.tasks.len();
        let mut marks: Vec<bool> = Vec::new();
        let mut k: usize = 0;
        while k < n
            invariant
                k <= n,
                marks@.len() == k,
                forall|j: int| 0 <= j < k ==> !#[trigger] marks@[j],
            decreases n - k,
        {
            marks.push(false);
            k += 1;
        }
        proof {
            lemma_count_none(marks@);
        }
        let mut changed: bool = true;
        while changed
            invariant
                n == ord.len(),
                ord == self.tasks.order(),
                g0 == self@,
                m == self.tasks@,
                t@ == task_id@,
                marks@.len() == n,
                forall|i: int|
                    0 <= i < ord.len() ==> m.dom().contains((#[trigger] ord[i]).0.id())
                        && m[ord[i].0.id()] == ord[i].1,
                forall|i: int|
                    0 <= i < n && #[trigger] marks@[i] ==> depends(g0.tasks, ord[i].0@, t@),
                !changed ==> forall|i: int|
                    0 <= i < n && !#[trigger] marks@[i] ==> !self.hit_by(i, t@, marks@),
            decreases n - count_true(marks@), if changed { 1int } else { 0int },
        {
            proof {
                lemma_count_bound(marks@);
            }
            changed = false;
            let mut i: usize = 0;
            let ghost start = count_true(marks@);
            while i < n
                invariant
                    i <= n,
                    n == ord.len(),
                    ord == self.tasks.order(),
                    g0 == self@,
                    m == self.tasks@,
                    t@ == task_id@,
                    marks@.len() == n,
                    !changed ==> start == count_true(marks@),
                    start <= count_true(marks@) <= n,
                    changed ==> start < count_true(marks@) <= n,
                    forall|q: int|
                        0 <= q < ord.len() ==> m.dom().contains((#[trigger] ord[q]).0.id())
                            && m[ord[q].0.id()] == ord[q].1,
                    forall|q: int|
                        0 <= q < n && #[trigger] marks@[q] ==> depends(g0.tasks, ord[q].0@, t@),
                    !changed ==> forall|q: int|
                        0 <= q < i && !#[trigger] marks@[q] ==> !self.hit_by(q, t@, marks@),
                decreases n - i,
            {
                if !marks[i] && self.waits_for_marked(i, &t, &marks) {
                    proof {
                        let a = ord[i as int].0@;
                        assert(g0.tasks[a] == ord[i as int].1@);
                        if text::strings_view(ord[i as int].1.depends_on@).contains(t@) {
                            assert(edge(g0.tasks, a, t@));
                            lemma_depends_step(g0.tasks, a, t@, t@);
                        } else {
                            let j = choose|j: int|
                                0 <= j < marks@.len() && marks@[j] && #[trigger] self.dep_at(i as int, j);
                            assert(edge(g0.tasks, a, ord[j].0@));
                            lemma_depends_step(g0.tasks, a, ord[j].0@, t@);
                        }
                        lemma_count_set(marks@, i as int);
                        lemma_count_bound(marks@.update(i as int, true));
                    }
                    marks.set(i, true);
                    changed = true;
                }
                i += 1;
            }
        }
        let mut ids: Vec<String> = Vec::new();
        let mut i: usize = 0;
        assert(text::strings_view(ids@) =~= Seq::<Seq<char>>::empty());
        while i < n
            invariant
                i <= n,
                n == ord.len(),
                ord == self.tasks.order(),
                marks@.len() == n,
                forall|id: Seq<char>| #[trigger]
                    text::strings_view(ids@).contains(id) <==> marked(ord, marks@, i as int, id),
            decreases n - i,
        {
            let ghost before = ids@;
            let (key, _) = self.tasks.entry(i);
            if marks[i] {
                ids.push(key.clone());
                assert(text::strings_view(ids@) =~= text::strings_view(before).push(key@));
            }
            proof {
                assert forall|id: Seq<char>| #[trigger] text::strings_view(ids@).contains(id) <==> marked(
                    ord,
                    marks@,
                    i as int + 1,
                    id,
                ) by {
                    lemma_push_contains(text::strings_view(before), key@, id);
                    assert(text::strings_view(before).contains(id) <==> marked(ord, marks@, i as int, id));
                    lemma_marked_step(ord, marks@, i as int, id);
                }
            }
            i += 1;
        }
        proof {
            let inside = |id: Seq<char>| marked(ord, marks@, n as int, id);
            assert forall|a: Seq<char>, b: Seq<char>| #[trigger]
                edge(g0.tasks, a, b) && (b == t@ || inside(b)) implies inside(a) by {
                assert(m.dom().contains(a));
                let i = choose|i: int| 0 <= i < ord.len() && (#[trigger] ord[i]).0.id() == a;
                assert(g0.tasks[a] == ord[i].1@);
                if !marks@[i] {
                    assert(!self.hit_by(i, t@, marks@));
                    if b != t@ {
                        let j = choose|j: int| 0 <= j < n && marks@[j] && (#[trigger] ord[j]).0@ == b;
                        assert(self.dep_at(i, j));
                    }
                    assert(false);
                }
                assert(ord[i].0@ == a);
            }
            assert forall|id: Seq<char>| g0.tasks.dom().contains(id) implies #[trigger] text::strings_view(
                ids@,
            ).contains(id) == depends(g0.tasks, id, t@) by {
                if depends(g0.tasks, id, t@) {
                    let p = choose|p: Seq<Seq<char>>| #[trigger]
                        is_path(g0.tasks, p) && p[0] == id && p.last() == t@;
                    lemma_closed_holds(g0.tasks, t@, inside, p, 0);
                }
                if marked(ord, marks@, n as int, id) {
                    let i = choose|i: int| 0 <= i < n && marks@[i] && (#[trigger] ord[i]).0@ == id;
                    assert(depends(g0.tasks, ord[i].0@, t@));
                }
            }
        }
        self.set_all(&ids, TaskStatus::Skipped);
        proof {
            assert(self@.tasks =~= with_status(
                g0.tasks,
                |id: Seq<char>| depends(g0.tasks, id, task_id@),
                TaskStatus::Skipped,
            ));
        }
    }

    /// The task at `i` depends on `t` or on a marked task.
    spec fn hit_by(&self, i: int, t: Seq<char>, marks: Seq<bool>) -> bool {
        text::strings_view(self.tasks.order()[i].1.depends_on@).contains(t) || exists|j: int|
            0 <= j < marks.len() && marks[j] && #[trigger] self.dep_at(i, j)
    }
}

/// One of the first `i` entries is marked and has the id `id`.
spec fn marked(ord: Seq<(String, TaskNode)>, marks: Seq<bool>, i: int, id: Seq<char>) -> bool {
    exists|j: int| 0 <= j < i && marks[j] && (#[trigger] ord[j]).0@ == id
}

proof fn lemma_marked_step(ord: Seq<(String, TaskNode)>, marks: Seq<bool>, i: int, id: Seq<char>)
    requires
        0 <= i < ord.len(),
    ensures
        marked(ord, marks, i + 1, id) <==> marked(ord, marks, i, id) || (marks[i] && ord[i].0@
            == id),
{
    if marked(ord, marks, i, id) {
        let j = choose|j: int| 0 <= j < i && marks[j] && (#[trigger] ord[j]).0@ == id;
        assert(ord[j].0@ == id);
    }
    if marks[i] && ord[i].0@ == id {
        assert(marked(ord, marks, i + 1, id));
    }
}

/// What a graph keeps of an acyclic one has no cycle either.
pub proof fn law_part_of_acyclic(whole: Tasks, part: Tasks)
    requires
        !cyclic(whole),
        forall|id: Seq<char>| #[trigger]
            part.dom().contains(id) ==> whole.dom().contains(id) && whole[id].depends_on
                == part[id].depends_on,
    ensures
        !cyclic(part),
{
    if cyclic(part) {
        let a = choose|a: Seq<char>| #[trigger] depends(part, a, a);
        let p = choose|p: Seq<Seq<char>>| #[trigger] is_path(part, p) && p[0] == a && p.last() == a;
        assert forall|i: int| 0 <= i < p.len() - 1 implies #[trigger] step(whole, p, i) by {
            assert(step(part, p, i));
        }
        assert(is_path(whole, p));
        assert(depends(whole, a, a));
    }
}

/// Tasks that bring a cycle leave an acyclic graph acyclic: what stays after they are
/// refused is part of what was there before.
pub proof fn law_refused_tasks_leave_acyclic(g: GraphV, tasks: Seq<JsonV>)
    requires
        !cyclic(g.tasks),
    ensures
        !cyclic(with_tasks(g, tasks).tasks.remove_keys(ids_of(tasks).to_set())),
{
    let part = with_tasks(g, tasks).tasks.remove_keys(ids_of(tasks).to_set());
    assert forall|id: Seq<char>| #[trigger] part.dom().contains(id) implies g.tasks.dom().contains(
        id,
    ) && g.tasks[id].depends_on == part[id].depends_on by {
        assert(!ids_of(tasks).contains(id));
        lemma_untouched(g, tasks, id);
    }
    law_part_of_acyclic(g.tasks, part);
}

proof fn lemma_untouched(g: GraphV, tasks: Seq<JsonV>, id: Seq<char>)
    requires
        !ids_of(tasks).contains(id),
    ensures
        with_tasks(g, tasks).tasks.dom().contains(id) <==> g.tasks.dom().contains(id),
        g.tasks.dom().contains(id) ==> with_tasks(g, tasks).tasks[id] == g.tasks[id],
    decreases tasks.len(),
{
    if tasks.len() > 0 {
        let t = tasks.drop_last();
        assert(!ids_of(t).contains(id)) by {
            if ids_of(t).contains(id) {
                let i = choose|i: int| 0 <= i < ids_of(t).len() && ids_of(t)[i] == id;
                assert(ids_of(tasks)[i] == id);
            }
        }
        assert(ids_of(tasks)[tasks.len() - 1] == tasks.last().get_text("task_id"@)->0);
        lemma_untouched(g, t, id);
    }
}

/// Setting statuses never makes or breaks a cycle.
pub proof fn law_status_keeps_cycles(tasks: Tasks, hit: spec_fn(Seq<char>) -> bool, st: TaskStatus)
    ensures
        cyclic(with_status(tasks, hit, st)) == cyclic(tasks),
{
    let other = with_status(tasks, hit, st);
    if !cyclic(tasks) {
        law_part_of_acyclic(tasks, other);
    }
    if !cyclic(other) {
        law_part_of_acyclic(other, tasks);
    }
}

/// Every task that is ready has all its dependencies behind it.
pub open spec fn ready_in_turn(tasks: Tasks) -> bool {
    forall|id: Seq<char>| #[trigger]
        tasks.dom().contains(id) && tasks[id].status == TaskStatus::Ready ==> deps_completed(
            tasks,
            tasks[id],
        )
}

/// A task gets ready in its turn, when all its dependencies are completed: that is so after a
/// task has begun, has been completed or has had its dependents skipped, and after one has failed
/// that was not completed before.
pub proof fn law_ready_in_turn(tasks: Tasks, t: Seq<char>)
    requires
        ready_in_turn(tasks),
    ensures
        ready_in_turn(running(tasks, t)),
        ready_in_turn(completed(tasks, t)),
        ready_in_turn(skipped(tasks, t)),
        !(tasks.dom().contains(t) && tasks[t].status == TaskStatus::Completed) ==> ready_in_turn(
            failed(tasks, t),
        ),
{
    let done = with_status(tasks, |id: Seq<char>| id == t, TaskStatus::Completed);
    let c = completed(tasks, t);
    assert forall|id: Seq<char>| #[trigger]
        c.dom().contains(id) && c[id].status == TaskStatus::Ready implies deps_completed(
        c,
        c[id],
    ) by {
        assert(done.dom().contains(id));
        assert(tasks.dom().contains(id));
        assert(deps_completed(done, done[id])) by {
            if done[id].status == TaskStatus::Ready {
                assert(deps_completed(tasks, tasks[id]));
            }
        }
    }
    let s = skipped(tasks, t);
    assert forall|id: Seq<char>| #[trigger]
        s.dom().contains(id) && s[id].status == TaskStatus::Ready implies deps_completed(
        s,
        s[id],
    ) by {
        assert(tasks.dom().contains(id));
        assert(!depends(tasks, id, t));
        assert(deps_completed(tasks, tasks[id]));
        assert forall|i: int| 0 <= i < s[id].depends_on.len() implies s.dom().contains(
            #[trigger] s[id].depends_on[i],
        ) && s[s[id].depends_on[i]].status == TaskStatus::Completed by {
            let d = s[id].depends_on[i];
            assert(tasks[id].depends_on[i] == d);
            if depends(tasks, d, t) {
                let p = choose|p: Seq<Seq<char>>| #[trigger]
                    is_path(tasks, p) && p[0] == d && p.last() == t;
                let q = seq![id] + p;
                assert forall|k: int| 0 <= k < q.len() - 1 implies #[trigger] step(tasks, q, k) by {
                    if k > 0 {
                        assert(step(tasks, p, k - 1));
                    } else {
                        assert(tasks[id].depends_on.contains(d));
                    }
                }
                assert(is_path(tasks, q));
                assert(q[0] == id && q.last() == t);
            }
        }
    }
    if !(tasks.dom().contains(t) && tasks[t].status == TaskStatus::Completed) {
        let f = failed(tasks, t);
        assert forall|id: Seq<char>| #[trigger]
            f.dom().contains(id) && f[id].status == TaskStatus::Ready implies deps_completed(
            f,
            f[id],
        ) by {
            assert(tasks.dom().contains(id));
            assert(deps_completed(tasks, tasks[id]));
        }
    }
}

/// A task that arrives under a new id is ready only where it depends on nothing, and leaves the
/// others ready in their turn.
pub proof fn law_arrivals_ready_in_turn(g: GraphV, tasks: Seq<JsonV>)
    requires
        ready_in_turn(g.tasks),
        forall|i: int| 0 <= i < tasks.len() ==> !g.tasks.dom().contains(#[trigger] ids_of(tasks)[i]),
    ensures
        ready_in_turn(with_tasks(g, tasks).tasks),
{
    lemma_arrivals(g, tasks);
    let h = with_tasks(g, tasks).tasks;
    assert forall|id: Seq<char>| #[trigger]
        h.dom().contains(id) && h[id].status == TaskStatus::Ready implies deps_completed(
        h,
        h[id],
    ) by {
        if g.tasks.dom().contains(id) {
            assert(h[id] == g.tasks[id]);
            assert(deps_completed(g.tasks, g.tasks[id]));
            assert forall|i: int| 0 <= i < h[id].depends_on.len() implies h.dom().contains(
                #[trigger] h[id].depends_on[i],
            ) && h[h[id].depends_on[i]].status == TaskStatus::Completed by {
                let d = h[id].depends_on[i];
                assert(g.tasks[id].depends_on[i] == d);
                assert(g.tasks.dom().contains(d));
                assert(h[d] == g.tasks[d]);
            }
        }
    }
}

/// Tasks that arrive under new ids leave the others as they are, and are as they arrive.
proof fn lemma_arrivals(g: GraphV, tasks: Seq<JsonV>)
    requires
        forall|i: int| 0 <= i < tasks.len() ==> !g.tasks.dom().contains(#[trigger] ids_of(tasks)[i]),
    ensures
        forall|id: Seq<char>| #[trigger]
            g.tasks.dom().contains(id) ==> with_tasks(g, tasks).tasks.dom().contains(id)
                && with_tasks(g, tasks).tasks[id] == g.tasks[id],
        forall|id: Seq<char>| #[trigger]
            with_tasks(g, tasks).tasks.dom().contains(id) && !g.tasks.dom().contains(id)
                && with_tasks(g, tasks).tasks[id].status == TaskStatus::Ready
                ==> with_tasks(g, tasks).tasks[id].depends_on.len() == 0,
    decreases tasks.len(),
{
    if tasks.len() > 0 {
        let front = tasks.drop_last();
        assert forall|i: int| 0 <= i < front.len() implies !g.tasks.dom().contains(
            #[trigger] ids_of(front)[i],
        ) by {
            assert(ids_of(front)[i] == ids_of(tasks)[i]);
        }
        lemma_arrivals(g, front);
        assert(ids_of(tasks)[tasks.len() - 1] == tasks.last().get_text("task_id"@)->0);
    }
}

/// Once the tasks that depend on a failed one are skipped, no task that depends on it is
/// ready to start.
pub proof fn law_nothing_ready_behind_failure(tasks: Tasks, t: Seq<char>, id: Seq<char>)
    requires
        tasks.dom().contains(id),
        depends(tasks, id, t),
    ensures
        skipped(tasks, t)[id].status == TaskStatus::Skipped,
{
}

/// How many marks are set.
pub open spec fn count_true(s: Seq<bool>) -> nat
    decreases s.len(),
{
    if s.len() == 0 {
        0
    } else {
        count_true(s.drop_last()) + if s.last() {
            1nat
        } else {
            0nat
        }
    }
}

proof fn lemma_count_bound(s: Seq<bool>)
    ensures
        count_true(s) <= s.len(),
    decreases s.len(),
{
    if s.len() > 0 {
        lemma_count_bound(s.drop_last());
    }
}

proof fn lemma_count_false(s: Seq<bool>)
    requires
        count_true(s) < s.len(),
    ensures
        exists|i: int| 0 <= i < s.len() && !s[i],
    decreases s.len(),
{
    if s.last() {
        lemma_count_false(s.drop_last());
        let i = choose|i: int| 0 <= i < s.drop_last().len() && !s.drop_last()[i];
        assert(!s[i]);
    } else {
        assert(!s[s.len() - 1]);
    }
}

proof fn lemma_count_all(s: Seq<bool>)
    requires
        count_true(s) >= s.len(),
    ensures
        forall|i: int| 0 <= i < s.len() ==> s[i],
    decreases s.len(),
{
    if s.len() > 0 {
        lemma_count_bound(s.drop_last());
        lemma_count_all(s.drop_last());
        assert forall|i: int| 0 <= i < s.len() implies s[i] by {
            if i < s.len() - 1 {
                assert(s.drop_last()[i] == s[i]);
            }
        }
    }
}

proof fn lemma_count_set(s: Seq<bool>, i: int)
    requires
        0 <= i < s.len(),
        !s[i],
    ensures
        count_true(s.update(i, true)) == count_true(s) + 1,
    decreases s.len(),
{
    if i == s.len() - 1 {
        assert(s.update(i, true).drop_last() =~= s.drop_last());
    } else {
        lemma_count_set(s.drop_last(), i);
        assert(s.update(i, true).drop_last() =~= s.drop_last().update(i, true));
    }
}

proof fn lemma_count_none(s: Seq<bool>)
    requires
        forall|i: int| 0 <= i < s.len() ==> !s[i],
    ensures
        count_true(s) == 0,
    decreases s.len(),
{
    if s.len() > 0 {
        lemma_count_none(s.drop_last());
    }
}

// ---------------------------------------------------------------------------
// What becomes of the tasks
// ---------------------------------------------------------------------------
/// A task that is completed is completed, and with it every task gets ready that waited for it and
/// for nothing else; no other status changes.
pub proof fn law_completion_frees(tasks: Tasks, t: Seq<char>, id: Seq<char>)
    requires
        tasks.dom().contains(id),
    ensures
        completed(tasks, t).dom() == tasks.dom(),
        completed(tasks, t)[id].task == tasks[id].task,
        completed(tasks, t)[id].depends_on == tasks[id].depends_on,
        id == t ==> completed(tasks, t)[id].status == TaskStatus::Completed,
        id != t ==> completed(tasks, t)[id].status == if tasks[id].status == TaskStatus::Pending && (
        forall|i: int|
            0 <= i < tasks[id].depends_on.len() ==> tasks.dom().contains(
                #[trigger] tasks[id].depends_on[i],
            ) && (tasks[id].depends_on[i] == t || tasks[tasks[id].depends_on[i]].status
                == TaskStatus::Completed)) {
            TaskStatus::Ready
        } else {
            tasks[id].status
        },
{
    let done = with_status(tasks, |x: Seq<char>| x == t, TaskStatus::Completed);
    assert(done.dom() =~= tasks.dom());
    assert(completed(tasks, t).dom() =~= tasks.dom());
    assert(done[id].depends_on == tasks[id].depends_on);
    let n = done[id];
    if id != t {
        let all = forall|i: int|
            0 <= i < tasks[id].depends_on.len() ==> tasks.dom().contains(
                #[trigger] tasks[id].depends_on[i],
            ) && (tasks[id].depends_on[i] == t || tasks[tasks[id].depends_on[i]].status
                == TaskStatus::Completed);
        if all {
            assert forall|i: int| 0 <= i < n.depends_on.len() implies done.dom().contains(
                #[trigger] n.depends_on[i],
            ) && done[n.depends_on[i]].status == TaskStatus::Completed by {
                assert(tasks[id].depends_on[i] == n.depends_on[i]);
            }
            assert(deps_completed(done, n));
        }
        if deps_completed(done, n) {
            assert forall|i: int| 0 <= i < tasks[id].depends_on.len() implies tasks.dom().contains(
                #[trigger] tasks[id].depends_on[i],
            ) && (tasks[id].depends_on[i] == t || tasks[tasks[id].depends_on[i]].status
                == TaskStatus::Completed) by {
                assert(done.dom().contains(n.depends_on[i]));
            }
        }
    }
}

/// A task that begins runs, and so do those that were ready; a task that fails has failed, and no
/// other; and skipping what depends on a task skips just that.
pub proof fn law_statuses_change_alone(tasks: Tasks, t: Seq<char>, id: Seq<char>)
    requires
        tasks.dom().contains(id),
    ensures
        running(tasks, t).dom() == tasks.dom(),
        running(tasks, t)[id].status == if id == t || tasks[id].status == TaskStatus::Ready {
            TaskStatus::Running
        } else {
            tasks[id].status
        },
        failed(tasks, t).dom() == tasks.dom(),
        failed(tasks, t)[id].status == if id == t {
            TaskStatus::Failed
        } else {
            tasks[id].status
        },
        skipped(tasks, t).dom() == tasks.dom(),
        skipped(tasks, t)[id].status == if depends(tasks, id, t) {
            TaskStatus::Skipped
        } else {
            tasks[id].status
        },
        running(tasks, t)[id].task == tasks[id].task,
        failed(tasks, t)[id].task == tasks[id].task,
        skipped(tasks, t)[id].task == tasks[id].task,
        running(tasks, t)[id].depends_on == tasks[id].depends_on,
        failed(tasks, t)[id].depends_on == tasks[id].depends_on,
        skipped(tasks, t)[id].depends_on == tasks[id].depends_on,
{
    assert(running(tasks, t).dom() =~= tasks.dom());
    assert(failed(tasks, t).dom() =~= tasks.dom());
    assert(skipped(tasks, t).dom() =~= tasks.dom());
}

/// The ready tasks are all those whose status says so, in the order in which they arrived, and no
/// others.
pub proof fn law_ready_are_listed(tasks: Tasks, order: Seq<Seq<char>>)
    ensures
        ready_list(tasks, order) == order.filter(
            |id: Seq<char>| tasks.dom().contains(id) && tasks[id].status == TaskStatus::Ready,
        ).map_values(|id: Seq<char>| tasks[id].task),
    decreases order.len(),
{
    reveal(Seq::filter);
    let f = |id: Seq<char>| tasks.dom().contains(id) && tasks[id].status == TaskStatus::Ready;
    let g = |id: Seq<char>| tasks[id].task;
    if order.len() > 0 {
        law_ready_are_listed(tasks, order.drop_last());
    }
    assert(ready_list(tasks, order) =~= order.filter(f).map_values(g));
}

/// Who names a task as one it depends on depends on it, and on all that it depends on itself.
pub proof fn law_dependence_carries_on(tasks: Tasks, a: Seq<char>, b: Seq<char>, c: Seq<char>)
    ensures
        edge(tasks, a, b) ==> depends(tasks, a, b),
        depends(tasks, a, b) && depends(tasks, b, c) ==> depends(tasks, a, c),
        edge(tasks, a, b) && edge(tasks, b, a) ==> cyclic(tasks),
        edge(tasks, a, a) ==> cyclic(tasks),
{
    if edge(tasks, a, b) {
        let p = seq![a, b];
        assert(step(tasks, p, 0));
        assert(is_path(tasks, p));
        assert(p.last() == b);
    }
    if edge(tasks, a, a) {
        let p = seq![a, a];
        assert(step(tasks, p, 0));
        assert(is_path(tasks, p));
        assert(p.last() == a);
        assert(depends(tasks, a, a));
    }
    if edge(tasks, a, b) && edge(tasks, b, a) {
        let p = seq![a, b, a];
        assert(step(tasks, p, 0));
        assert(step(tasks, p, 1));
        assert(is_path(tasks, p));
        assert(p.last() == a);
        assert(depends(tasks, a, a));
    }
    if depends(tasks, a, b) && depends(tasks, b, c) {
        let p = choose|p: Seq<Seq<char>>| #[trigger] is_path(tasks, p) && p[0] == a && p.last() == b;
        let q = choose|q: Seq<Seq<char>>| #[trigger] is_path(tasks, q) && q[0] == b && q.last() == c;
        let r = p.drop_last() + q;
        assert forall|i: int| 0 <= i < r.len() - 1 implies #[trigger] step(tasks, r, i) by {
            if i < p.len() - 2 {
                assert(step(tasks, p, i));
            } else if i == p.len() - 2 {
                assert(step(tasks, p, i));
                assert(p[i + 1] == q[0]);
            } else {
                assert(step(tasks, q, i - (p.len() - 1)));
            }
        }
        assert(is_path(tasks, r));
        assert(r[0] == a);
        assert(r.last() == c);
    }
}

/// What depends on a task reaches it through one that names it, or names it itself.
pub proof fn law_dependence_has_a_first_step(tasks: Tasks, a: Seq<char>, b: Seq<char>)
    requires
        depends(tasks, a, b),
    ensures
        edge(tasks, a, b) || exists|m: Seq<char>| #[trigger] edge(tasks, a, m) && depends(tasks, m, b),
{
    let p = choose|p: Seq<Seq<char>>| #[trigger] is_path(tasks, p) && p[0] == a && p.last() == b;
    assert(step(tasks, p, 0));
    if p.len() > 2 {
        let q = p.drop_first();
        assert forall|i: int| 0 <= i < q.len() - 1 implies #[trigger] step(tasks, q, i) by {
            assert(step(tasks, p, i + 1));
        }
        assert(is_path(tasks, q));
        assert(q[0] == p[1]);
        assert(q.last() == b);
        assert(depends(tasks, p[1], b));
    }
}

/// A task that arrives is known by its id from then on, behind those that are there. It depends on
/// what it names, and is ready exactly where it names nothing.
pub proof fn law_arrival_is_known(g: GraphV, tasks: Seq<JsonV>, t: JsonV, id: Seq<char>)
    requires
        t.get_text("task_id"@) == Some(id),
    ensures
        ({
            let before = with_tasks(g, tasks);
            let h = with_tasks(g, tasks.push(t));
            &&& h.order == before.order.push(id)
            &&& h.tasks.dom() == before.tasks.dom().insert(id)
            &&& h.tasks[id].task == t
            &&& h.tasks[id].status == TaskStatus::Ready <==> h.tasks[id].depends_on.len() == 0
            &&& h.tasks[id].status == TaskStatus::Ready || h.tasks[id].status == TaskStatus::Pending
            &&& t.get("depends_on"@) is None ==> h.tasks[id].depends_on.len() == 0
            &&& t.get("depends_on"@) matches Some(JsonV::Array(a)) ==> h.tasks[id].depends_on
                == json::texts(a)
            &&& forall|k: Seq<char>| #[trigger]
                before.tasks.dom().contains(k) && k != id ==> h.tasks[k] == before.tasks[k]
        }),
{
    assert(tasks.push(t).drop_last() =~= tasks);
    let before = with_tasks(g, tasks);
    let h = with_tasks(g, tasks.push(t));
    assert(h.tasks.dom() =~= before.tasks.dom().insert(id));
}

} // verus!
