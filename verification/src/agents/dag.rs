//! Execution DAG: steps, edges, statuses and results of an agent workflow;
//! building the DAG from an agent plan, validating it, ordering it
//! topologically and propagating sensitivity along its edges.
use vstd::prelude::*;

use crate::ids::{new_uuid, uuid_hyphenated, uuid_string};
use crate::text::{decimal, push_decimal, push_str, string_from_chars};

verus! {

// ─── Agent plan (input to the DAG builder) ──────────────────────────────────

/// An agent's execution plan: steps that name their dependencies by index.
pub struct AgentPlan {
    /// Human-readable name of the plan.
    pub name: String,
    /// Ordered steps; dependencies are indices into this list.
    pub steps: Vec<AgentPlanStep>,
}

/// A single step of an agent plan.
pub struct AgentPlanStep {
    /// What the step does.
    pub description: String,
    /// Model the step needs, if any.
    pub model: Option<String>,
    /// Tool IDs the step needs.
    pub tools: Vec<String>,
    /// Indices of the plan steps this step depends on.
    pub depends_on: Vec<usize>,
    /// Optional sensitivity hint (`None` means non-sensitive).
    pub sensitivity: Option<PromptSensitivity>,
    /// Estimated compute time in milliseconds; 0 means "use the default".
    pub estimated_compute_ms: u64,
}

/// Errors of DAG construction from an agent plan.
#[derive(Debug, Clone, Copy, PartialEq, Eq, Structural)]
pub enum DagBuildError {
    /// A step references a dependency index beyond the plan.
    InvalidDependencyIndex { step_index: usize, dependency_index: usize, plan_length: usize },
    /// A step depends on itself.
    SelfDependency { step_index: usize },
    /// The dependencies form a cycle.
    CycleDetected,
    /// The plan has no steps.
    EmptyPlan,
}

/// Sensitivity classification of a step's prompt and data.
#[derive(Debug, Clone, Copy, PartialEq, Eq, Structural)]
pub enum PromptSensitivity {
    /// Private data: restricted to local-owned nodes.
    Sensitive,
    /// Non-private data: any trusted node.
    NonSensitive,
}

/// Execution status of a step.
#[derive(Debug, Clone, PartialEq)]
pub enum StepStatus {
    Pending,
    Ready,
    Dispatched,
    Running,
    Completed,
    Failed { reason: String, retries: u32 },
    Cancelled,
}

/// Result produced by a completed step.
#[derive(Debug, Clone)]
pub struct StepResult {
    pub step_id: u128,
    pub output_data: Vec<u8>,
    pub output_size_bytes: u64,
    pub execution_node: u128,
    pub compute_time_ms: u64,
    pub model_used: Option<String>,
    pub tools_used: Vec<String>,
}

/// A single execution step within the DAG.
#[derive(Debug, Clone)]
pub struct ExecutionStep {
    pub step_id: u128,
    pub description: String,
    pub required_model: Option<String>,
    pub required_tools: Vec<String>,
    pub sensitivity: PromptSensitivity,
    pub estimated_compute_ms: u64,
    pub input_dependencies: Vec<u128>,
    pub status: StepStatus,
    pub assigned_node: Option<u128>,
    pub result: Option<StepResult>,
}

/// The execution DAG of one workflow. Steps are held in a vector whose step
/// IDs are pairwise distinct (see `wf`); edges are (dependency, dependent).
#[derive(Debug, Clone)]
pub struct ExecutionDag {
    pub workflow_id: u128,
    pub steps: Vec<ExecutionStep>,
    pub edges: Vec<(u128, u128)>,
    pub root_steps: Vec<u128>,
}

/// Errors of DAG validation.
#[derive(Debug, Clone, PartialEq, Eq, Structural)]
pub enum DagValidationError {
    /// The DAG contains a cycle.
    CycleDetected,
    /// An edge references a step that does not exist.
    InvalidEdge { from: u128, to: u128, missing: u128 },
}

// ─── Specifications ─────────────────────────────────────────────────────────

/// The IDs of the steps, in step order.
pub open spec fn step_ids(steps: Seq<ExecutionStep>) -> Seq<u128> {
    steps.map_values(|s: ExecutionStep| s.step_id)
}

/// `order` lists every step exactly once, and for every edge whose target is
/// listed, the source is listed before the target.
pub open spec fn is_topological_order(
    ids: Seq<u128>,
    edges: Seq<(u128, u128)>,
    order: Seq<u128>,
) -> bool {
    &&& order.len() == ids.len()
    &&& order.no_duplicates()
    &&& forall|k: int| 0 <= k < order.len() ==> ids.contains(#[trigger] order[k])
    &&& forall|k: int| 0 <= k < ids.len() ==> order.contains(#[trigger] ids[k])
    &&& forall|e: int, j: int|
        #![trigger order[j], edges[e]]
        0 <= e < edges.len() && 0 <= j < order.len() && order[j] == edges[e].1 ==> order.take(
            j,
        ).contains(edges[e].0)
}

/// The steps can be ordered so that every dependency comes first.
pub open spec fn acyclic(ids: Seq<u128>, edges: Seq<(u128, u128)>) -> bool {
    exists|o: Seq<u128>| is_topological_order(ids, edges, o)
}

/// Some edge leads into `id`.
pub open spec fn is_target(edges: Seq<(u128, u128)>, id: u128) -> bool {
    exists|e: int| 0 <= e < edges.len() && #[trigger] edges[e].1 == id
}

/// The IDs that no edge leads into, in the order of `ids`.
pub open spec fn roots_of(ids: Seq<u128>, edges: Seq<(u128, u128)>) -> Seq<u128>
    decreases ids.len(),
{
    if ids.len() == 0 {
        seq![]
    } else {
        let r = roots_of(ids.drop_last(), edges);
        if is_target(edges, ids.last()) {
            r
        } else {
            r.push(ids.last())
        }
    }
}

/// The IDs of the sensitive steps.
pub open spec fn sensitive_ids(steps: Seq<ExecutionStep>) -> Set<u128> {
    Set::new(
        |id: u128|
            exists|i: int|
                0 <= i < steps.len() && #[trigger] steps[i].step_id == id && steps[i].sensitivity
                    == PromptSensitivity::Sensitive,
    )
}

/// Every edge from a member of `t` to a step leads to a member of `t`.
pub open spec fn closed_under_edges(
    ids: Seq<u128>,
    edges: Seq<(u128, u128)>,
    t: Set<u128>,
) -> bool {
    forall|e: int|
        0 <= e < edges.len() && t.contains(#[trigger] edges[e].0) && ids.contains(edges[e].1)
            ==> t.contains(edges[e].1)
}

/// `new` is `old` with only the sensitivity of steps changed.
pub open spec fn same_but_sensitivity(old: Seq<ExecutionStep>, new: Seq<ExecutionStep>) -> bool {
    &&& new.len() == old.len()
    &&& forall|i: int|
        #![trigger new[i]]
        0 <= i < old.len() ==> new[i] == (ExecutionStep {
            sensitivity: new[i].sensitivity,
            ..old[i]
        })
}

/// `result` is the least set of steps that contains `init` and is closed
/// under the edges.
pub open spec fn least_closed_extension(
    ids: Seq<u128>,
    edges: Seq<(u128, u128)>,
    init: Set<u128>,
    result: Set<u128>,
) -> bool {
    &&& init.subset_of(result)
    &&& closed_under_edges(ids, edges, result)
    &&& forall|t: Set<u128>|
        init.subset_of(t) && closed_under_edges(ids, edges, t) ==> #[trigger] result.subset_of(t)
}

/// The sensitivity of `new` is the least extension of the sensitivity of
/// `old` that is closed under the edges.
pub open spec fn sensitivity_propagated(
    old: Seq<ExecutionStep>,
    new: Seq<ExecutionStep>,
    edges: Seq<(u128, u128)>,
) -> bool {
    least_closed_extension(step_ids(old), edges, sensitive_ids(old), sensitive_ids(new))
}

/// The first edge (from the front) with an endpoint that is not a step.
pub open spec fn first_invalid_edge(ids: Seq<u128>, edges: Seq<(u128, u128)>, k: int) -> bool {
    &&& 0 <= k < edges.len()
    &&& !(ids.contains(edges[k].0) && ids.contains(edges[k].1))
    &&& forall|j: int|
        0 <= j < k ==> ids.contains(#[trigger] edges[j].0) && ids.contains(edges[j].1)
}

/// Every edge joins two steps.
pub open spec fn edges_valid(ids: Seq<u128>, edges: Seq<(u128, u128)>) -> bool {
    forall|j: int|
        0 <= j < edges.len() ==> ids.contains(#[trigger] edges[j].0) && ids.contains(edges[j].1)
}

/// Number of `true` entries.
pub open spec fn count_true(s: Seq<bool>) -> nat
    decreases s.len(),
{
    if s.len() == 0 {
        0
    } else {
        count_true(s.drop_last()) + if s.last() {
            1nat
        } else {
            0nat
        }
    }
}

// ─── Lemmas ─────────────────────────────────────────────────────────────────

proof fn lemma_count_true_bound(s: Seq<bool>)
    ensures
        count_true(s) <= s.len(),
        count_true(s) == s.len() ==> forall|i: int| 0 <= i < s.len() ==> s[i],
        count_true(s) < s.len() ==> exists|i: int| 0 <= i < s.len() && !s[i],
    decreases s.len(),
{
    if s.len() > 0 {
        lemma_count_true_bound(s.drop_last());
        if count_true(s) < s.len() && s.last() {
            let i = choose|i: int| 0 <= i < s.drop_last().len() && !s.drop_last()[i];
            assert(!s[i]);
        }
        if count_true(s) < s.len() && !s.last() {
            assert(!s[s.len() - 1]);
        }
        if count_true(s) == s.len() {
            assert forall|i: int| 0 <= i < s.len() implies s[i] by {
                if i < s.len() - 1 {
                    assert(s[i] == s.drop_last()[i]);
                }
            }
        }
    }
}

proof fn lemma_count_true_update(s: Seq<bool>, i: int)
    requires
        0 <= i < s.len(),
        !s[i],
    ensures
        count_true(s.update(i, true)) == count_true(s) + 1,
    decreases s.len(),
{
    if i == s.len() - 1 {
        assert(s.update(i, true).drop_last() =~= s.drop_last());
    } else {
        lemma_count_true_update(s.drop_last(), i);
        assert(s.update(i, true).drop_last() =~= s.drop_last().update(i, true));
    }
}

/// The first position of `o` whose element is not in `done`.
proof fn lemma_first_missing(o: Seq<u128>, done: Seq<u128>, p0: int) -> (p: int)
    requires
        0 <= p0 < o.len(),
        !done.contains(o[p0]),
    ensures
        0 <= p <= p0,
        !done.contains(o[p]),
        forall|q: int| 0 <= q < p ==> done.contains(#[trigger] o[q]),
    decreases p0,
{
    if exists|q: int| 0 <= q < p0 && !done.contains(#[trigger] o[q]) {
        let q = choose|q: int| 0 <= q < p0 && !done.contains(#[trigger] o[q]);
        lemma_first_missing(o, done, q)
    } else {
        p0
    }
}

/// When every unlisted step still waits on an unlisted source, no
/// topological order exists.
proof fn lemma_stuck_means_cyclic(
    ids: Seq<u128>,
    edges: Seq<(u128, u128)>,
    order: Seq<u128>,
    done: Seq<bool>,
    i0: int,
)
    requires
        done.len() == ids.len(),
        forall|i: int| 0 <= i < ids.len() ==> (#[trigger] done[i] <==> order.contains(ids[i])),
        0 <= i0 < ids.len(),
        !done[i0],
        forall|i: int|
            0 <= i < ids.len() && !(#[trigger] done[i]) ==> exists|e: int|
                0 <= e < edges.len() && edges[e].1 == ids[i] && !order.contains(edges[e].0),
    ensures
        !acyclic(ids, edges),
{
    if acyclic(ids, edges) {
        let o = choose|o: Seq<u128>| is_topological_order(ids, edges, o);
        assert(o.contains(ids[i0]));
        let p0 = choose|p: int| 0 <= p < o.len() && o[p] == ids[i0];
        let p = lemma_first_missing(o, order, p0);
        assert(ids.contains(o[p]));
        let i = choose|i: int| 0 <= i < ids.len() && ids[i] == o[p];
        assert(!done[i]);
        let e = choose|e: int|
            0 <= e < edges.len() && edges[e].1 == ids[i] && !order.contains(edges[e].0);
        assert(o.take(p).contains(edges[e].0));
        let q = choose|q: int| 0 <= q < o.take(p).len() && #[trigger] o.take(p)[q] == edges[e].0;
        assert(o[q] == edges[e].0);
        assert(order.contains(o[q]));
    }
}

// ─── Executable helpers ─────────────────────────────────────────────────────

/// Whether `v` holds `x`.
pub fn contains_id(v: &Vec<u128>, x: u128) -> (r: bool)
    ensures
        r == v@.contains(x),
{
    let mut i: usize = 0;
    while i < v.len()
        invariant
            i <= v.len(),
            forall|j: int| 0 <= j < i ==> v@[j] != x,
        decreases v.len() - i,
    {
        if v[i] == x {
            return true;
        }
        i = i + 1;
    }
    false
}

/// Position of `x` in `v`, if any.
pub fn index_of_id(v: &Vec<u128>, x: u128) -> (r: Option<usize>)
    ensures
        match r {
            Some(i) => i < v.len() && v@[i as int] == x,
            None => !v@.contains(x),
        },
{
    let mut i: usize = 0;
    while i < v.len()
        invariant
            i <= v.len(),
            forall|j: int| 0 <= j < i ==> v@[j] != x,
        decreases v.len() - i,
    {
        if v[i] == x {
            return Some(i);
        }
        i = i + 1;
    }
    None
}

/// The step IDs of `steps`, in order.
pub fn collect_step_ids(steps: &Vec<ExecutionStep>) -> (ids: Vec<u128>)
    ensures
        ids@ == step_ids(steps@),
{
    let mut ids: Vec<u128> = Vec::new();
    let mut i: usize = 0;
    while i < steps.len()
        invariant
            i <= steps.len(),
            ids@ == step_ids(steps@).take(i as int),
        decreases steps.len() - i,
    {
        ids.push(steps[i].step_id);
        i = i + 1;
        assert(step_ids(steps@).take(i as int) =~= step_ids(steps@).take(i - 1).push(
            steps@[i - 1].step_id,
        ));
    }
    assert(step_ids(steps@).take(i as int) =~= step_ids(steps@));
    ids
}

/// Whether every edge into `target` comes from a listed step.
fn sources_listed(order: &Vec<u128>, edges: &Vec<(u128, u128)>, target: u128) -> (r: bool)
    ensures
        r == (forall|e: int|
            0 <= e < edges.len() && #[trigger] edges@[e].1 == target ==> order@.contains(
                edges@[e].0,
            )),
{
    let mut e: usize = 0;
    while e < edges.len()
        invariant
            e <= edges.len(),
            forall|k: int|
                0 <= k < e && #[trigger] edges@[k].1 == target ==> order@.contains(edges@[k].0),
        decreases edges.len() - e,
    {
        if edges[e].1 == target && !contains_id(order, edges[e].0) {
            return false;
        }
        e = e + 1;
    }
    true
}

/// A topological order of `ids` under `edges`, or `None` when none exists.
/// Edges whose target is not among `ids` are ignored; an edge into a step
/// from something that is not a step can never be satisfied.
pub fn topological_order(ids: &Vec<u128>, edges: &Vec<(u128, u128)>) -> (r: Option<Vec<u128>>)
    requires
        ids@.no_duplicates(),
    ensures
        match r {
            Some(o) => is_topological_order(ids@, edges@, o@),
            None => !acyclic(ids@, edges@),
        },
{
    let n = ids.len();
    let mut done: Vec<bool> = Vec::new();
    let mut k: usize = 0;
    while k < n
        invariant
            k <= n,
            n == ids.len(),
            done@.len() == k,
            forall|i: int| 0 <= i < k ==> !done@[i],
        decreases n - k,
    {
        done.push(false);
        k = k + 1;
    }
    assert(count_true(done@) == 0) by {
        lemma_count_true_zero(done@);
    }
    let mut order: Vec<u128> = Vec::new();
    while order.len() < n
        invariant
            n == ids.len(),
            ids@.no_duplicates(),
            done@.len() == n,
            forall|i: int| 0 <= i < n ==> (#[trigger] done@[i] <==> order@.contains(ids@[i])),
            forall|k: int| 0 <= k < order@.len() ==> ids@.contains(#[trigger] order@[k]),
            order@.no_duplicates(),
            forall|e: int, j: int|
                #![trigger order@[j], edges@[e]]
                0 <= e < edges@.len() && 0 <= j < order@.len() && order@[j] == edges@[e].1
                    ==> order@.take(j).contains(edges@[e].0),
            order@.len() == count_true(done@),
        decreases n - order@.len(),
    {
        proof {
            lemma_count_true_bound(done@);
        }
        // find the first step that is not listed and whose sources are all listed
        let mut i: usize = 0;
        let mut found: Option<usize> = None;
        while i < n && found.is_none()
            invariant
                n == ids.len(),
                done@.len() == n,
                i <= n,
                match found {
                    Some(f) => f < n && !done@[f as int] && forall|e: int|
                        0 <= e < edges@.len() && #[trigger] edges@[e].1 == ids@[f as int]
                            ==> order@.contains(edges@[e].0),
                    None => true,
                },
                forall|x: int|
                    0 <= x < i && !(#[trigger] done@[x]) ==> exists|e: int|
                        0 <= e < edges@.len() && edges@[e].1 == ids@[x] && !order@.contains(
                            edges@[e].0,
                        ),
            decreases n - i + (if found is None { 1int } else { 0int }),
        {
            if !done[i] && sources_listed(&order, edges, ids[i]) {
                found = Some(i);
            } else {
                i = i + 1;
            }
        }
        match found {
            Some(i) => {
                let id = ids[i];
                let ghost old_order = order@;
                let ghost old_done = done@;
                proof {
                    lemma_count_true_update(done@, i as int);
                }
                order.push(id);
                done.set(i, true);
                assert forall|x: int| 0 <= x < n implies (#[trigger] done@[x] <==> order@.contains(
                    ids@[x],
                )) by {
                    if x != i {
                        assert(ids@[x] != ids@[i as int]);
                        assert(order@.contains(ids@[x]) ==> old_order.contains(ids@[x]) || ids@[x]
                            == id) by {
                            if order@.contains(ids@[x]) {
                                let q = choose|q: int|
                                    0 <= q < order@.len() && order@[q] == ids@[x];
                                if q < old_order.len() {
                                    assert(old_order[q] == ids@[x]);
                                }
                            }
                        }
                        if old_order.contains(ids@[x]) {
                            let q = choose|q: int|
                                0 <= q < old_order.len() && old_order[q] == ids@[x];
                            assert(order@[q] == ids@[x]);
                        }
                    } else {
                        assert(order@[old_order.len() as int] == id);
                    }
                }
                assert forall|k: int| 0 <= k < order@.len() implies ids@.contains(
                    #[trigger] order@[k],
                ) by {
                    if k == old_order.len() {
                        assert(ids@[i as int] == order@[k]);
                    } else {
                        assert(order@[k] == old_order[k]);
                    }
                }
                assert(!old_order.contains(id));
                assert forall|e: int, j: int|
                    #![trigger order@[j], edges@[e]]
                    0 <= e < edges@.len() && 0 <= j < order@.len() && order@[j] == edges@[e].1
                        implies order@.take(j).contains(edges@[e].0) by {
                    if j < old_order.len() {
                        assert(order@.take(j) =~= old_order.take(j));
                        assert(old_order[j] == order@[j]);
                    } else {
                        assert(order@.take(j) =~= old_order);
                    }
                }
            },
            None => {
                proof {
                    let i0 = choose|i: int| 0 <= i < done@.len() && !done@[i];
                    lemma_stuck_means_cyclic(ids@, edges@, order@, done@, i0);
                }
                return None;
            },
        }
    }
    proof {
        lemma_count_true_bound(done@);
        assert forall|k: int| 0 <= k < ids@.len() implies order@.contains(#[trigger] ids@[k]) by {
            assert(done@[k]);
        }
    }
    Some(order)
}

proof fn lemma_count_true_zero(s: Seq<bool>)
    requires
        forall|i: int| 0 <= i < s.len() ==> !s[i],
    ensures
        count_true(s) == 0,
    decreases s.len(),
{
    if s.len() > 0 {
        lemma_count_true_zero(s.drop_last());
    }
}


// ─── The DAG's own operations ───────────────────────────────────────────────

impl ExecutionDag {
    /// The step IDs are pairwise distinct (the DAG is a map from ID to step).
    pub open spec fn wf(&self) -> bool {
        step_ids(self.steps@).no_duplicates()
    }

    /// The IDs of the steps, in step order.
    pub open spec fn ids(&self) -> Seq<u128> {
        step_ids(self.steps@)
    }

    /// Orders the steps so that every dependency precedes its dependents, or
    /// returns `None` when the edges form a cycle.
    pub fn topological_sort(&self) -> (r: Option<Vec<u128>>)
        requires
            self.wf(),
        ensures
            match r {
                Some(o) => is_topological_order(self.ids(), self.edges@, o@),
                None => !acyclic(self.ids(), self.edges@),
            },
    {
        let ids = collect_step_ids(&self.steps);
        topological_order(&ids, &self.edges)
    }

    /// Checks that every edge joins two steps (reporting the first edge that
    /// does not) and that there is no cycle.
    pub fn validate(&self) -> (r: Result<(), DagValidationError>)
        requires
            self.wf(),
        ensures
            match r {
                Ok(()) => edges_valid(self.ids(), self.edges@) && acyclic(self.ids(), self.edges@),
                Err(DagValidationError::CycleDetected) => edges_valid(self.ids(), self.edges@)
                    && !acyclic(self.ids(), self.edges@),
                Err(DagValidationError::InvalidEdge { from, to, missing }) => exists|k: int|
                    first_invalid_edge(self.ids(), self.edges@, k) && self.edges@[k] == (from, to)
                        && missing == (if !self.ids().contains(from) {
                        from
                    } else {
                        to
                    }),
            },
    {
        let ids = collect_step_ids(&self.steps);
        let mut k: usize = 0;
        while k < self.edges.len()
            invariant
                ids@ == self.ids(),
                k <= self.edges.len(),
                forall|j: int|
                    #![trigger self.edges@[j]]
                    0 <= j < k ==> ids@.contains(self.edges@[j].0) && ids@.contains(
                        self.edges@[j].1,
                    ),
            decreases self.edges.len() - k,
        {
            let from = self.edges[k].0;
            let to = self.edges[k].1;
            if !contains_id(&ids, from) {
                assert(first_invalid_edge(self.ids(), self.edges@, k as int));
                return Err(DagValidationError::InvalidEdge { from, to, missing: from });
            }
            if !contains_id(&ids, to) {
                assert(first_invalid_edge(self.ids(), self.edges@, k as int));
                return Err(DagValidationError::InvalidEdge { from, to, missing: to });
            }
            assert(ids@.contains(self.edges@[k as int].0) && ids@.contains(self.edges@[k as int].1));
            k = k + 1;
        }
        match topological_order(&ids, &self.edges) {
            Some(_) => Ok(()),
            None => Err(DagValidationError::CycleDetected),
        }
    }

    /// Marks as sensitive every step that depends, directly or transitively,
    /// on a sensitive step. A DAG with a cycle is left unchanged.
    pub fn propagate_sensitivity(&mut self)
        requires
            old(self).wf(),
        ensures
            final(self).workflow_id == old(self).workflow_id,
            final(self).edges@ == old(self).edges@,
            final(self).root_steps@ == old(self).root_steps@,
            same_but_sensitivity(old(self).steps@, final(self).steps@),
            final(self).wf(),
            acyclic(old(self).ids(), old(self).edges@) ==> sensitivity_propagated(
                old(self).steps@,
                final(self).steps@,
                old(self).edges@,
            ),
            !acyclic(old(self).ids(), old(self).edges@) ==> final(self).steps@ == old(
                self,
            ).steps@,
    {
        let sorted = match self.topological_sort() {
            Some(o) => o,
            None => {
                return ;
            },
        };
        let ids = collect_step_ids(&self.steps);
        let ghost old_steps = self.steps@;
        let ghost edges = self.edges@;
        let n = sorted.len();
        let mut k: usize = 0;
        assert(self.steps@ =~= old_steps);
        while k < n
            invariant
                n == sorted@.len(),
                k <= n,
                ids@ == step_ids(old_steps),
                ids@.no_duplicates(),
                edges == self.edges@,
                is_topological_order(ids@, edges, sorted@),
                same_but_sensitivity(old_steps, self.steps@),
                sensitive_ids(old_steps).subset_of(sensitive_ids(self.steps@)),
                forall|x: int|
                    0 <= x < old_steps.len() && #[trigger] self.steps@[x].sensitivity
                        == PromptSensitivity::Sensitive && old_steps[x].sensitivity
                        != PromptSensitivity::Sensitive ==> exists|e: int|
                        0 <= e < edges.len() && edges[e].1 == ids@[x] && sensitive_ids(
                            self.steps@,
                        ).contains(edges[e].0),
                forall|e: int|
                    0 <= e < edges.len() && sorted@.take(k as int).contains(#[trigger] edges[e].0)
                        && sensitive_ids(self.steps@).contains(edges[e].0) && ids@.contains(
                        edges[e].1,
                    ) ==> sensitive_ids(self.steps@).contains(edges[e].1),
                self.workflow_id == old(self).workflow_id,
                self.root_steps@ == old(self).root_steps@,
            decreases n - k,
        {
            let id = sorted[k];
            let ghost before = self.steps@;
            assert(ids@.contains(id));
            let i = match index_of_id(&ids, id) {
                Some(i) => i,
                None => {
                    assert(false);
                    0
                },
            };
            assert(ids@[i as int] == old_steps[i as int].step_id);
            let is_sensitive = match self.steps[i].sensitivity {
                PromptSensitivity::Sensitive => true,
                PromptSensitivity::NonSensitive => false,
            };
            if is_sensitive {
                let mut e: usize = 0;
                while e < self.edges.len()
                    invariant
                        e <= edges.len(),
                        edges == self.edges@,
                        k < n,
                        n == sorted@.len(),
                        id == sorted@[k as int],
                        ids@ == step_ids(old_steps),
                        ids@.no_duplicates(),
                        is_topological_order(ids@, edges, sorted@),
                        i < old_steps.len(),
                        ids@[i as int] == id,
                        same_but_sensitivity(old_steps, self.steps@),
                        same_but_sensitivity(before, self.steps@),
                        self.steps@[i as int].sensitivity == PromptSensitivity::Sensitive,
                        forall|x: int|
                            0 <= x < old_steps.len() ==> (#[trigger] self.steps@[x].sensitivity
                                == PromptSensitivity::Sensitive) == (before[x].sensitivity
                                == PromptSensitivity::Sensitive || exists|f: int|
                                0 <= f < e && edges[f].0 == id && edges[f].1 == ids@[x]),
                        self.workflow_id == old(self).workflow_id,
                        self.root_steps@ == old(self).root_steps@,
                    decreases edges.len() - e,
                {
                    let (from, to) = self.edges[e];
                    if from == id {
                        match index_of_id(&ids, to) {
                            Some(j) => {
                                let ghost mid = self.steps@;
                                self.steps[j].sensitivity = PromptSensitivity::Sensitive;
                                assert forall|x: int| 0 <= x < old_steps.len() implies (
                                #[trigger] self.steps@[x].sensitivity
                                    == PromptSensitivity::Sensitive) == (before[x].sensitivity
                                    == PromptSensitivity::Sensitive || exists|f: int|
                                    0 <= f < e + 1 && edges[f].0 == id && edges[f].1 == ids@[x]) by {
                                    if x == j {
                                        assert(edges[e as int].1 == ids@[x]);
                                    } else {
                                        assert(self.steps@[x] == mid[x]);
                                        if exists|f: int|
                                            0 <= f < e + 1 && edges[f].0 == id && edges[f].1
                                                == ids@[x] {
                                            let f = choose|f: int|
                                                0 <= f < e + 1 && edges[f].0 == id && edges[f].1
                                                    == ids@[x];
                                            assert(f < e);
                                        }
                                    }
                                }
                                assert forall|x: int|
                                    #![trigger self.steps@[x]]
                                    0 <= x < old_steps.len() implies self.steps@[x] == (
                                ExecutionStep { sensitivity: self.steps@[x].sensitivity, ..old_steps[x] })
                                    by {
                                    if x != j {
                                        assert(self.steps@[x] == mid[x]);
                                    }
                                }
                                assert forall|x: int|
                                    #![trigger self.steps@[x]]
                                    0 <= x < before.len() implies self.steps@[x] == (
                                ExecutionStep { sensitivity: self.steps@[x].sensitivity, ..before[x] })
                                    by {
                                    if x != j {
                                        assert(self.steps@[x] == mid[x]);
                                    }
                                }
                            },
                            None => {
                                assert forall|x: int| 0 <= x < old_steps.len() implies (
                                #[trigger] self.steps@[x].sensitivity
                                    == PromptSensitivity::Sensitive) == (before[x].sensitivity
                                    == PromptSensitivity::Sensitive || exists|f: int|
                                    0 <= f < e + 1 && edges[f].0 == id && edges[f].1 == ids@[x]) by {
                                    if exists|f: int|
                                        0 <= f < e + 1 && edges[f].0 == id && edges[f].1
                                            == ids@[x] {
                                        let f = choose|f: int|
                                            0 <= f < e + 1 && edges[f].0 == id && edges[f].1
                                                == ids@[x];
                                        if f == e {
                                            assert(ids@.contains(to));
                                        }
                                    }
                                }
                            },
                        }
                    }
                    e = e + 1;
                }
            }
            proof {
                lemma_propagation_step(
                    old_steps,
                    before,
                    self.steps@,
                    ids@,
                    edges,
                    sorted@,
                    k as int,
                    i as int,
                );
            }
            k = k + 1;
        }
        proof {
            lemma_propagation_done(old_steps, self.steps@, ids@, edges, sorted@);
        }
    }

    /// Recomputes the root steps: the steps that no edge leads into, in step
    /// order.
    pub fn compute_root_steps(&mut self)
        ensures
            final(self).root_steps@ == roots_of(old(self).ids(), old(self).edges@),
            final(self).steps@ == old(self).steps@,
            final(self).edges@ == old(self).edges@,
            final(self).workflow_id == old(self).workflow_id,
    {
        let ids = collect_step_ids(&self.steps);
        let roots = roots_in(&ids, &self.edges);
        self.root_steps = roots;
    }
}

/// Whether some edge leads into `id`.
pub fn targeted(edges: &Vec<(u128, u128)>, id: u128) -> (r: bool)
    ensures
        r == is_target(edges@, id),
{
    let mut e: usize = 0;
    while e < edges.len()
        invariant
            e <= edges.len(),
            forall|k: int| 0 <= k < e ==> #[trigger] edges@[k].1 != id,
        decreases edges.len() - e,
    {
        if edges[e].1 == id {
            return true;
        }
        e = e + 1;
    }
    false
}

/// The IDs that no edge leads into, in order.
pub fn roots_in(ids: &Vec<u128>, edges: &Vec<(u128, u128)>) -> (r: Vec<u128>)
    ensures
        r@ == roots_of(ids@, edges@),
{
    let mut r: Vec<u128> = Vec::new();
    let mut i: usize = 0;
    while i < ids.len()
        invariant
            i <= ids.len(),
            r@ == roots_of(ids@.take(i as int), edges@),
        decreases ids.len() - i,
    {
        let ghost pre = ids@.take(i as int);
        assert(ids@.take(i + 1).drop_last() =~= pre);
        if !targeted(edges, ids[i]) {
            r.push(ids[i]);
        }
        i = i + 1;
    }
    assert(ids@.take(ids.len() as int) =~= ids@);
    r
}

/// The position of an element in a sequence without duplicates.
proof fn lemma_position(s: Seq<u128>, x: u128) -> (p: int)
    requires
        s.contains(x),
    ensures
        0 <= p < s.len(),
        s[p] == x,
{
    choose|p: int| 0 <= p < s.len() && s[p] == x
}

/// One round of propagation keeps the invariants of `propagate_sensitivity`.
#[verifier::rlimit(80)]
#[verifier::spinoff_prover]
proof fn lemma_propagation_step(
    old_steps: Seq<ExecutionStep>,
    before: Seq<ExecutionStep>,
    after: Seq<ExecutionStep>,
    ids: Seq<u128>,
    edges: Seq<(u128, u128)>,
    sorted: Seq<u128>,
    k: int,
    i: int,
)
    requires
        0 <= k < sorted.len(),
        ids == step_ids(old_steps),
        ids.no_duplicates(),
        is_topological_order(ids, edges, sorted),
        0 <= i < ids.len(),
        ids[i] == sorted[k],
        same_but_sensitivity(old_steps, before),
        same_but_sensitivity(old_steps, after),
        sensitive_ids(old_steps).subset_of(sensitive_ids(before)),
        forall|x: int|
            0 <= x < old_steps.len() && #[trigger] before[x].sensitivity
                == PromptSensitivity::Sensitive && old_steps[x].sensitivity
                != PromptSensitivity::Sensitive ==> exists|e: int|
                0 <= e < edges.len() && edges[e].1 == ids[x] && sensitive_ids(before).contains(
                    edges[e].0,
                ),
        forall|e: int|
            0 <= e < edges.len() && sorted.take(k).contains(#[trigger] edges[e].0)
                && sensitive_ids(before).contains(edges[e].0) && ids.contains(edges[e].1)
                ==> sensitive_ids(before).contains(edges[e].1),
        // what the round did
        before[i].sensitivity != PromptSensitivity::Sensitive ==> after == before,
        before[i].sensitivity == PromptSensitivity::Sensitive ==> forall|x: int|
            0 <= x < old_steps.len() ==> (#[trigger] after[x].sensitivity
                == PromptSensitivity::Sensitive) == (before[x].sensitivity
                == PromptSensitivity::Sensitive || exists|f: int|
                0 <= f < edges.len() && edges[f].0 == ids[i] && edges[f].1 == ids[x]),
    ensures
        sensitive_ids(old_steps).subset_of(sensitive_ids(after)),
        forall|x: int|
            0 <= x < old_steps.len() && #[trigger] after[x].sensitivity
                == PromptSensitivity::Sensitive && old_steps[x].sensitivity
                != PromptSensitivity::Sensitive ==> exists|e: int|
                0 <= e < edges.len() && edges[e].1 == ids[x] && sensitive_ids(after).contains(
                    edges[e].0,
                ),
        forall|e: int|
            0 <= e < edges.len() && sorted.take(k + 1).contains(#[trigger] edges[e].0)
                && sensitive_ids(after).contains(edges[e].0) && ids.contains(edges[e].1)
                ==> sensitive_ids(after).contains(edges[e].1),
{
    lemma_sens_index(old_steps, after, ids);
    lemma_sens_index(old_steps, before, ids);
    lemma_sens_index(old_steps, old_steps, ids);
    // the round only adds sensitivity
    assert forall|id: u128| sensitive_ids(before).contains(id) implies sensitive_ids(
        after,
    ).contains(id) by {
        let x = lemma_position(ids, id);
    }
    assert(sensitive_ids(old_steps).subset_of(sensitive_ids(after)));
    lemma_marked_after(old_steps, before, after, ids, edges, sorted, k, i);
    // justification
    assert forall|x: int|
        0 <= x < old_steps.len() && #[trigger] after[x].sensitivity
            == PromptSensitivity::Sensitive && old_steps[x].sensitivity
            != PromptSensitivity::Sensitive implies exists|e: int|
        0 <= e < edges.len() && edges[e].1 == ids[x] && sensitive_ids(after).contains(
            edges[e].0,
        ) by {
        if before[x].sensitivity == PromptSensitivity::Sensitive {
            let e = choose|e: int|
                0 <= e < edges.len() && edges[e].1 == ids[x] && sensitive_ids(before).contains(
                    edges[e].0,
                );
            assert(sensitive_ids(after).contains(edges[e].0));
        } else {
            let f = choose|f: int|
                0 <= f < edges.len() && edges[f].0 == ids[i] && edges[f].1 == ids[x];
            assert(sensitive_ids(after).contains(ids[i]));
        }
    }
    lemma_closure_step(old_steps, before, after, ids, edges, sorted, k, i);
}


/// Sensitivity of a step, read through the set of sensitive IDs.
proof fn lemma_sens_index(old_steps: Seq<ExecutionStep>, steps: Seq<ExecutionStep>, ids: Seq<u128>)
    requires
        ids == step_ids(old_steps),
        ids.no_duplicates(),
        same_but_sensitivity(old_steps, steps),
    ensures
        forall|x: int|
            0 <= x < old_steps.len() ==> (sensitive_ids(steps).contains(#[trigger] ids[x])
                <==> steps[x].sensitivity == PromptSensitivity::Sensitive),
        forall|id: u128| sensitive_ids(steps).contains(id) ==> ids.contains(id),
{
    assert forall|x: int| 0 <= x < old_steps.len() implies (sensitive_ids(steps).contains(
        #[trigger] ids[x],
    ) <==> steps[x].sensitivity == PromptSensitivity::Sensitive) by {
        if sensitive_ids(steps).contains(ids[x]) {
            let y = choose|y: int|
                0 <= y < steps.len() && #[trigger] steps[y].step_id == ids[x] && steps[y].sensitivity
                    == PromptSensitivity::Sensitive;
            assert(steps[y].step_id == old_steps[y].step_id);
            assert(ids[y] == ids[x]);
        }
        if steps[x].sensitivity == PromptSensitivity::Sensitive {
            assert(steps[x].step_id == old_steps[x].step_id);
            assert(steps[x].step_id == ids[x]);
        }
    }
    assert forall|id: u128| sensitive_ids(steps).contains(id) implies ids.contains(id) by {
        let y = choose|y: int|
            0 <= y < steps.len() && #[trigger] steps[y].step_id == id && steps[y].sensitivity
                == PromptSensitivity::Sensitive;
        assert(steps[y].step_id == old_steps[y].step_id);
        assert(ids[y] == id);
    }
}

/// A step marked in round `k` is a target of an edge out of `sorted[k]`, so
/// it sits after position `k`.
proof fn lemma_marked_after(
    old_steps: Seq<ExecutionStep>,
    before: Seq<ExecutionStep>,
    after: Seq<ExecutionStep>,
    ids: Seq<u128>,
    edges: Seq<(u128, u128)>,
    sorted: Seq<u128>,
    k: int,
    i: int,
)
    requires
        0 <= k < sorted.len(),
        ids == step_ids(old_steps),
        ids.no_duplicates(),
        is_topological_order(ids, edges, sorted),
        0 <= i < ids.len(),
        ids[i] == sorted[k],
        same_but_sensitivity(old_steps, before),
        same_but_sensitivity(old_steps, after),
        before[i].sensitivity != PromptSensitivity::Sensitive ==> after == before,
        before[i].sensitivity == PromptSensitivity::Sensitive ==> forall|x: int|
            0 <= x < old_steps.len() ==> (#[trigger] after[x].sensitivity
                == PromptSensitivity::Sensitive) == (before[x].sensitivity
                == PromptSensitivity::Sensitive || exists|f: int|
                0 <= f < edges.len() && edges[f].0 == ids[i] && edges[f].1 == ids[x]),
    ensures
        forall|x: int|
            0 <= x < old_steps.len() && #[trigger] after[x].sensitivity
                == PromptSensitivity::Sensitive && before[x].sensitivity
                != PromptSensitivity::Sensitive ==> exists|p: int|
                k < p < sorted.len() && sorted[p] == ids[x],
{
    assert forall|x: int|
        0 <= x < old_steps.len() && #[trigger] after[x].sensitivity == PromptSensitivity::Sensitive
            && before[x].sensitivity != PromptSensitivity::Sensitive implies exists|p: int|
        k < p < sorted.len() && sorted[p] == ids[x] by {
        let f = choose|f: int|
            0 <= f < edges.len() && edges[f].0 == ids[i] && edges[f].1 == ids[x];
        assert(sorted.contains(ids[x]));
        let p = lemma_position(sorted, ids[x]);
        assert(sorted.take(p).contains(edges[f].0));
        let q = choose|q: int| 0 <= q < sorted.take(p).len() && sorted.take(p)[q] == edges[f].0;
        assert(sorted[q] == sorted[k]);
    }
}

/// Closure over the processed prefix survives round `k`.
#[verifier::rlimit(40)]
proof fn lemma_closure_step(
    old_steps: Seq<ExecutionStep>,
    before: Seq<ExecutionStep>,
    after: Seq<ExecutionStep>,
    ids: Seq<u128>,
    edges: Seq<(u128, u128)>,
    sorted: Seq<u128>,
    k: int,
    i: int,
)
    requires
        0 <= k < sorted.len(),
        ids == step_ids(old_steps),
        ids.no_duplicates(),
        is_topological_order(ids, edges, sorted),
        0 <= i < ids.len(),
        ids[i] == sorted[k],
        same_but_sensitivity(old_steps, before),
        same_but_sensitivity(old_steps, after),
        before[i].sensitivity != PromptSensitivity::Sensitive ==> after == before,
        before[i].sensitivity == PromptSensitivity::Sensitive ==> forall|x: int|
            0 <= x < old_steps.len() ==> (#[trigger] after[x].sensitivity
                == PromptSensitivity::Sensitive) == (before[x].sensitivity
                == PromptSensitivity::Sensitive || exists|f: int|
                0 <= f < edges.len() && edges[f].0 == ids[i] && edges[f].1 == ids[x]),
        forall|e: int|
            0 <= e < edges.len() && sorted.take(k).contains(#[trigger] edges[e].0)
                && sensitive_ids(before).contains(edges[e].0) && ids.contains(edges[e].1)
                ==> sensitive_ids(before).contains(edges[e].1),
    ensures
        forall|e: int|
            0 <= e < edges.len() && sorted.take(k + 1).contains(#[trigger] edges[e].0)
                && sensitive_ids(after).contains(edges[e].0) && ids.contains(edges[e].1)
                ==> sensitive_ids(after).contains(edges[e].1),
{
    lemma_sens_index(old_steps, after, ids);
    lemma_sens_index(old_steps, before, ids);
    lemma_marked_after(old_steps, before, after, ids, edges, sorted, k, i);
    assert forall|e: int|
        0 <= e < edges.len() && sorted.take(k + 1).contains(#[trigger] edges[e].0)
            && sensitive_ids(after).contains(edges[e].0) && ids.contains(edges[e].1) implies sensitive_ids(
        after,
    ).contains(edges[e].1) by {
        let u = edges[e].0;
        let xu = lemma_position(ids, u);
        let pu = choose|q: int| 0 <= q < sorted.take(k + 1).len() && #[trigger] sorted.take(k + 1)[q] == u;
        assert(sorted[pu] == u);
        // u was not marked in this round: marked steps sit after position k
        if before[xu].sensitivity != PromptSensitivity::Sensitive {
            assert(after[xu].sensitivity == PromptSensitivity::Sensitive);
            let p = choose|p: int| k < p < sorted.len() && sorted[p] == ids[xu];
            assert(false);
        }
        if pu < k {
            assert(sorted.take(k).contains(u)) by {
                assert(sorted.take(k)[pu] == u);
            }
            assert(sensitive_ids(before).contains(u));
            let xv = lemma_position(ids, edges[e].1);
            assert(sensitive_ids(before).contains(edges[e].1));
        } else {
            assert(u == ids[i]);
            assert(xu == i);
            let xv = lemma_position(ids, edges[e].1);
            assert(after[xv].sensitivity == PromptSensitivity::Sensitive);
        }
    }
}


/// After all rounds the sensitivity is the least closed extension.
proof fn lemma_propagation_done(
    old_steps: Seq<ExecutionStep>,
    new_steps: Seq<ExecutionStep>,
    ids: Seq<u128>,
    edges: Seq<(u128, u128)>,
    sorted: Seq<u128>,
)
    requires
        ids == step_ids(old_steps),
        ids.no_duplicates(),
        is_topological_order(ids, edges, sorted),
        same_but_sensitivity(old_steps, new_steps),
        sensitive_ids(old_steps).subset_of(sensitive_ids(new_steps)),
        forall|x: int|
            0 <= x < old_steps.len() && #[trigger] new_steps[x].sensitivity
                == PromptSensitivity::Sensitive && old_steps[x].sensitivity
                != PromptSensitivity::Sensitive ==> exists|e: int|
                0 <= e < edges.len() && edges[e].1 == ids[x] && sensitive_ids(new_steps).contains(
                    edges[e].0,
                ),
        forall|e: int|
            0 <= e < edges.len() && sorted.take(sorted.len() as int).contains(#[trigger] edges[e].0)
                && sensitive_ids(new_steps).contains(edges[e].0) && ids.contains(edges[e].1)
                ==> sensitive_ids(new_steps).contains(edges[e].1),
    ensures
        sensitivity_propagated(old_steps, new_steps, edges),
        step_ids(new_steps) == ids,
{
    assert(step_ids(new_steps) =~= ids) by {
        assert forall|x: int| 0 <= x < new_steps.len() implies step_ids(new_steps)[x] == ids[x] by {
            assert(new_steps[x].step_id == old_steps[x].step_id);
        }
    }
    assert(sorted.take(sorted.len() as int) =~= sorted);
    assert forall|id: u128| sensitive_ids(new_steps).contains(id) implies ids.contains(id) by {
        let y = choose|y: int|
            0 <= y < new_steps.len() && #[trigger] new_steps[y].step_id == id
                && new_steps[y].sensitivity == PromptSensitivity::Sensitive;
        assert(ids[y] == id);
    }
    assert forall|e: int|
        0 <= e < edges.len() && sensitive_ids(new_steps).contains(#[trigger] edges[e].0)
            && ids.contains(edges[e].1) implies sensitive_ids(new_steps).contains(edges[e].1) by {
        assert(ids.contains(edges[e].0));
        assert(sorted.contains(edges[e].0));
    }
    assert forall|t: Set<u128>|
        sensitive_ids(old_steps).subset_of(t) && closed_under_edges(ids, edges, t) implies #[trigger] sensitive_ids(
        new_steps,
    ).subset_of(t) by {
        assert forall|id: u128| sensitive_ids(new_steps).contains(id) implies t.contains(id) by {
            assert(ids.contains(id));
            assert(sorted.contains(id));
            let p = lemma_position(sorted, id);
            lemma_least_by_position(old_steps, new_steps, ids, edges, sorted, t, p);
        }
    }
}

/// A DAG whose every edge runs from an earlier step to a later one, in step
/// order, has no cycle: the step order itself is topological.
pub proof fn law_forward_edges_acyclic(ids: Seq<u128>, edges: Seq<(u128, u128)>)
    requires
        ids.no_duplicates(),
        forall|e: int|
            #![trigger edges[e]]
            0 <= e < edges.len() ==> exists|i: int, j: int|
                #![trigger ids[i], ids[j]]
                0 <= i < j < ids.len() && ids[i] == edges[e].0 && ids[j] == edges[e].1,
    ensures
        acyclic(ids, edges),
{
    assert forall|e: int, j: int|
        #![trigger ids[j], edges[e]]
        0 <= e < edges.len() && 0 <= j < ids.len() && ids[j] == edges[e].1 implies ids.take(j).contains(
            edges[e].0,
        ) by {
        let (a, b) = choose|a: int, b: int|
            #![trigger ids[a], ids[b]]
            0 <= a < b < ids.len() && ids[a] == edges[e].0 && ids[b] == edges[e].1;
        assert(b == j);
        assert(ids.take(j)[a] == edges[e].0);
    }
    assert(is_topological_order(ids, edges, ids));
}

/// Sensitivity reaches every transitive dependent: after propagation, every
/// step on a path of edges that starts at a sensitive step is sensitive.
pub proof fn law_sensitivity_transitive(
    old: Seq<ExecutionStep>,
    new: Seq<ExecutionStep>,
    edges: Seq<(u128, u128)>,
    path: Seq<u128>,
)
    requires
        sensitivity_propagated(old, new, edges),
        path.len() > 0,
        sensitive_ids(old).contains(path[0]),
        forall|k: int| 0 <= k < path.len() ==> step_ids(old).contains(#[trigger] path[k]),
        forall|k: int| 0 < k < path.len() ==> edges.contains((path[k - 1], #[trigger] path[k])),
    ensures
        forall|k: int| 0 <= k < path.len() ==> sensitive_ids(new).contains(#[trigger] path[k]),
    decreases path.len(),
{
    let r = sensitive_ids(new);
    if path.len() == 1 {
        assert forall|k: int| 0 <= k < path.len() implies r.contains(#[trigger] path[k]) by {
            assert(k == 0);
        }
    } else {
        let front = path.drop_last();
        assert forall|k: int| 0 <= k < front.len() implies step_ids(old).contains(#[trigger] front[k]) by {
            assert(front[k] == path[k]);
        }
        assert forall|k: int| 0 < k < front.len() implies edges.contains((front[k - 1], #[trigger] front[k])) by {
            assert(front[k] == path[k] && front[k - 1] == path[k - 1]);
        }
        law_sensitivity_transitive(old, new, edges, front);
        let n = path.len() - 1;
        assert(front[n - 1] == path[n - 1]);
        assert(r.contains(path[n - 1]));
        assert(edges.contains((path[n - 1], path[n])));
        let e = choose|e: int| 0 <= e < edges.len() && edges[e] == (path[n - 1], path[n]);
        assert(step_ids(old).contains(path[n]));
        assert(r.contains(edges[e].0));
        assert(r.contains(path[n]));
        assert forall|k: int| 0 <= k < path.len() implies r.contains(#[trigger] path[k]) by {
            if k < n {
                assert(front[k] == path[k]);
            }
        }
    }
}

/// Induction over positions of the topological order: a sensitive step is in
/// every closed extension of the initially sensitive steps.
proof fn lemma_least_by_position(
    old_steps: Seq<ExecutionStep>,
    new_steps: Seq<ExecutionStep>,
    ids: Seq<u128>,
    edges: Seq<(u128, u128)>,
    sorted: Seq<u128>,
    t: Set<u128>,
    p: int,
)
    requires
        ids == step_ids(old_steps),
        ids.no_duplicates(),
        is_topological_order(ids, edges, sorted),
        same_but_sensitivity(old_steps, new_steps),
        forall|x: int|
            0 <= x < old_steps.len() && #[trigger] new_steps[x].sensitivity
                == PromptSensitivity::Sensitive && old_steps[x].sensitivity
                != PromptSensitivity::Sensitive ==> exists|e: int|
                0 <= e < edges.len() && edges[e].1 == ids[x] && sensitive_ids(new_steps).contains(
                    edges[e].0,
                ),
        sensitive_ids(old_steps).subset_of(t),
        closed_under_edges(ids, edges, t),
        0 <= p < sorted.len(),
    ensures
        sensitive_ids(new_steps).contains(sorted[p]) ==> t.contains(sorted[p]),
    decreases p,
{
    let id = sorted[p];
    if sensitive_ids(new_steps).contains(id) {
        let x = choose|x: int|
            0 <= x < new_steps.len() && #[trigger] new_steps[x].step_id == id
                && new_steps[x].sensitivity == PromptSensitivity::Sensitive;
        assert(new_steps[x].step_id == old_steps[x].step_id);
        assert(ids[x] == id);
        if old_steps[x].sensitivity == PromptSensitivity::Sensitive {
            assert(sensitive_ids(old_steps).contains(id));
        } else {
            let e = choose|e: int|
                0 <= e < edges.len() && edges[e].1 == ids[x] && sensitive_ids(new_steps).contains(
                    edges[e].0,
                );
            assert(sorted.take(p).contains(edges[e].0));
            let q = choose|q: int| 0 <= q < sorted.take(p).len() && #[trigger] sorted.take(p)[q] == edges[e].0;
            assert(sorted[q] == edges[e].0);
            lemma_least_by_position(old_steps, new_steps, ids, edges, sorted, t, q);
            assert(ids.contains(edges[e].1));
        }
    }
}


// ─── Building the DAG from an agent plan ────────────────────────────────────

/// The first error among the dependencies `deps[k..]` of step `i` of a plan
/// with `n` steps.
pub open spec fn step_dep_error(n: nat, i: nat, deps: Seq<usize>, k: int) -> Option<DagBuildError>
    decreases deps.len() - k,
{
    if k < 0 || k >= deps.len() {
        None
    } else if deps[k] >= n {
        Some(
            DagBuildError::InvalidDependencyIndex {
                step_index: i as usize,
                dependency_index: deps[k],
                plan_length: n as usize,
            },
        )
    } else if deps[k] == i {
        Some(DagBuildError::SelfDependency { step_index: i as usize })
    } else {
        step_dep_error(n, i, deps, k + 1)
    }
}

/// The first dependency error of the plan steps `steps[i..]`, scanning steps
/// in order and each step's dependencies in order.
pub open spec fn plan_dep_error(steps: Seq<AgentPlanStep>, i: int) -> Option<DagBuildError>
    decreases steps.len() - i,
{
    if i < 0 || i >= steps.len() {
        None
    } else {
        match step_dep_error(steps.len(), i as nat, steps[i].depends_on@, 0) {
            Some(e) => Some(e),
            None => plan_dep_error(steps, i + 1),
        }
    }
}

/// The edges of the plan's first `i` steps: for each step, in order, one edge
/// from each dependency (in order) to the step.
pub open spec fn plan_edges(steps: Seq<AgentPlanStep>, ids: Seq<u128>, i: int) -> Seq<(u128, u128)>
    decreases i,
{
    if i <= 0 {
        seq![]
    } else {
        plan_edges(steps, ids, i - 1) + steps[i - 1].depends_on@.map_values(
            |d: usize| (ids[d as int], ids[i - 1]),
        )
    }
}

/// The sensitivity a plan step asks for (non-sensitive when it gives none).
pub open spec fn hinted_sensitivity(s: AgentPlanStep) -> PromptSensitivity {
    match s.sensitivity {
        Some(v) => v,
        None => PromptSensitivity::NonSensitive,
    }
}

/// The IDs of the plan steps that ask to be sensitive.
pub open spec fn hinted_sensitive_ids(steps: Seq<AgentPlanStep>, ids: Seq<u128>) -> Set<u128> {
    Set::new(
        |id: u128|
            exists|i: int|
                0 <= i < steps.len() && #[trigger] ids[i] == id && hinted_sensitivity(steps[i])
                    == PromptSensitivity::Sensitive,
    )
}

/// The default compute estimate replaces a zero estimate.
pub open spec fn effective_estimate(ms: u64) -> u64 {
    if ms > 0 {
        ms
    } else {
        1000
    }
}

/// `st` is the execution step made from plan step `ps` (index `i`), apart
/// from its sensitivity.
pub open spec fn step_from_plan(st: ExecutionStep, ps: AgentPlanStep, ids: Seq<u128>, i: int) -> bool {
    &&& st.step_id == ids[i]
    &&& st.description == ps.description
    &&& st.required_model == ps.model
    &&& st.required_tools@ == ps.tools@
    &&& st.estimated_compute_ms == effective_estimate(ps.estimated_compute_ms)
    &&& st.input_dependencies@ == ps.depends_on@.map_values(|d: usize| ids[d as int])
    &&& st.status == StepStatus::Pending
    &&& st.assigned_node is None
    &&& st.result is None
}

/// `dag` is the execution DAG of `plan` under workflow ID `wid` and step IDs
/// `ids` (one per plan step, in plan order).
pub open spec fn dag_built_from(dag: ExecutionDag, plan: AgentPlan, wid: u128, ids: Seq<u128>) -> bool {
    let edges = plan_edges(plan.steps@, ids, plan.steps@.len() as int);
    &&& dag.workflow_id == wid
    &&& dag.steps@.len() == plan.steps@.len()
    &&& dag.ids() == ids
    &&& dag.wf()
    &&& forall|i: int|
        0 <= i < dag.steps@.len() ==> step_from_plan(
            #[trigger] dag.steps@[i],
            plan.steps@[i],
            ids,
            i,
        )
    &&& dag.edges@ == edges
    &&& dag.root_steps@ == roots_of(ids, edges)
    &&& least_closed_extension(
        ids,
        edges,
        hinted_sensitive_ids(plan.steps@, ids),
        sensitive_ids(dag.steps@),
    )
}

/// A copy of a list of strings.
pub fn copy_strings(v: &Vec<String>) -> (r: Vec<String>)
    ensures
        r@ == v@,
{
    let mut r: Vec<String> = Vec::new();
    let mut i: usize = 0;
    while i < v.len()
        invariant
            i <= v.len(),
            r@ == v@.take(i as int),
        decreases v.len() - i,
    {
        r.push(v[i].clone());
        i = i + 1;
        assert(v@.take(i as int) =~= v@.take(i - 1).push(v@[i - 1]));
    }
    assert(v@.take(i as int) =~= v@);
    r
}

/// A copy of an optional string.
pub fn copy_opt_string(v: &Option<String>) -> (r: Option<String>)
    ensures
        r == *v,
{
    match v {
        Some(s) => Some(s.clone()),
        None => None,
    }
}

/// Checks the dependencies of the plan: the first one (steps in order, each
/// step's dependencies in order) that is out of range or is the step itself
/// is reported.
fn check_plan_dependencies(steps: &Vec<AgentPlanStep>) -> (r: Option<DagBuildError>)
    ensures
        r == plan_dep_error(steps@, 0),
        r is None ==> forall|i: int, k: int|
            0 <= i < steps@.len() && 0 <= k < steps@[i].depends_on@.len() ==> (
            #[trigger] steps@[i].depends_on@[k]) < steps@.len() && steps@[i].depends_on@[k] != i,
{
    let n = steps.len();
    let mut i: usize = 0;
    while i < n
        invariant
            n == steps@.len(),
            i <= n,
            plan_dep_error(steps@, 0) == plan_dep_error(steps@, i as int),
            forall|a: int, k: int|
                0 <= a < i && 0 <= k < steps@[a].depends_on@.len() ==> (
                #[trigger] steps@[a].depends_on@[k]) < n && steps@[a].depends_on@[k] != a,
        decreases n - i,
    {
        let deps = &steps[i].depends_on;
        let mut k: usize = 0;
        while k < deps.len()
            invariant
                n == steps@.len(),
                i < n,
                plan_dep_error(steps@, 0) == plan_dep_error(steps@, i as int),
                deps@ == steps@[i as int].depends_on@,
                k <= deps.len(),
                step_dep_error(n as nat, i as nat, deps@, 0) == step_dep_error(
                    n as nat,
                    i as nat,
                    deps@,
                    k as int,
                ),
                forall|j: int| 0 <= j < k ==> (#[trigger] deps@[j]) < n && deps@[j] != i,
            decreases deps.len() - k,
        {
            let d = deps[k];
            if d >= n {
                assert(step_dep_error(n as nat, i as nat, deps@, k as int) is Some);
                return Some(
                    DagBuildError::InvalidDependencyIndex {
                        step_index: i,
                        dependency_index: d,
                        plan_length: n,
                    },
                );
            }
            if d == i {
                assert(step_dep_error(n as nat, i as nat, deps@, k as int) is Some);
                return Some(DagBuildError::SelfDependency { step_index: i });
            }
            k = k + 1;
        }
        assert(step_dep_error(n as nat, i as nat, deps@, k as int) is None);
        i = i + 1;
    }
    None
}

/// `ids[d]` for every dependency index `d`.
fn map_deps(deps: &Vec<usize>, ids: &Vec<u128>) -> (r: Vec<u128>)
    requires
        forall|k: int| 0 <= k < deps@.len() ==> (#[trigger] deps@[k]) < ids@.len(),
    ensures
        r@ == deps@.map_values(|d: usize| ids@[d as int]),
{
    let mut r: Vec<u128> = Vec::new();
    let mut k: usize = 0;
    while k < deps.len()
        invariant
            k <= deps.len(),
            forall|j: int| 0 <= j < deps@.len() ==> (#[trigger] deps@[j]) < ids@.len(),
            r@ == deps@.take(k as int).map_values(|d: usize| ids@[d as int]),
        decreases deps.len() - k,
    {
        r.push(ids[deps[k]]);
        k = k + 1;
        assert(deps@.take(k as int).map_values(|d: usize| ids@[d as int]) =~= deps@.take(
            k - 1,
        ).map_values(|d: usize| ids@[d as int]).push(ids@[deps@[k - 1] as int]));
    }
    assert(deps@.take(k as int) =~= deps@);
    r
}

/// Builds the execution DAG of a plan with the given workflow ID and step IDs
/// (one per plan step, pairwise distinct).
pub fn build_execution_dag_with_ids(plan: &AgentPlan, workflow_id: u128, ids: &Vec<u128>) -> (r:
    Result<ExecutionDag, DagBuildError>)
    requires
        ids@.len() == plan.steps@.len(),
        ids@.no_duplicates(),
    ensures
        plan.steps@.len() == 0 ==> r == Err::<ExecutionDag, DagBuildError>(
            DagBuildError::EmptyPlan,
        ),
        plan.steps@.len() > 0 && plan_dep_error(plan.steps@, 0) is Some ==> r == Err::<
            ExecutionDag,
            DagBuildError,
        >(plan_dep_error(plan.steps@, 0)->0),
        plan.steps@.len() > 0 && plan_dep_error(plan.steps@, 0) is None ==> match r {
            Ok(dag) => dag_built_from(dag, *plan, workflow_id, ids@) && acyclic(
                ids@,
                plan_edges(plan.steps@, ids@, plan.steps@.len() as int),
            ),
            Err(e) => e == DagBuildError::CycleDetected && !acyclic(
                ids@,
                plan_edges(plan.steps@, ids@, plan.steps@.len() as int),
            ),
        },
{
    let n = plan.steps.len();
    if n == 0 {
        return Err(DagBuildError::EmptyPlan);
    }
    match check_plan_dependencies(&plan.steps) {
        Some(e) => {
            return Err(e);
        },
        None => {},
    }
    let ghost psteps = plan.steps@;
    // the steps, with the sensitivity the plan asks for
    let mut steps: Vec<ExecutionStep> = Vec::new();
    let mut i: usize = 0;
    while i < n
        invariant
            n == psteps.len(),
            psteps == plan.steps@,
            ids@.len() == n,
            i <= n,
            steps@.len() == i,
            forall|a: int, k: int|
                0 <= a < n && 0 <= k < psteps[a].depends_on@.len() ==> (
                #[trigger] psteps[a].depends_on@[k]) < n && psteps[a].depends_on@[k] != a,
            forall|a: int|
                0 <= a < i ==> step_from_plan(#[trigger] steps@[a], psteps[a], ids@, a)
                    && steps@[a].sensitivity == hinted_sensitivity(psteps[a]),
        decreases n - i,
    {
        let ps = &plan.steps[i];
        let deps = map_deps(&ps.depends_on, ids);
        let sensitivity = match ps.sensitivity {
            Some(v) => v,
            None => PromptSensitivity::NonSensitive,
        };
        let estimated_compute_ms = if ps.estimated_compute_ms > 0 {
            ps.estimated_compute_ms
        } else {
            1000
        };
        let st = ExecutionStep {
            step_id: ids[i],
            description: ps.description.clone(),
            required_model: copy_opt_string(&ps.model),
            required_tools: copy_strings(&ps.tools),
            sensitivity,
            estimated_compute_ms,
            input_dependencies: deps,
            status: StepStatus::Pending,
            assigned_node: None,
            result: None,
        };
        steps.push(st);
        i = i + 1;
    }
    // edges: (dependency, dependent), steps in order, dependencies in order
    let mut edges: Vec<(u128, u128)> = Vec::new();
    let mut i: usize = 0;
    while i < n
        invariant
            n == psteps.len(),
            psteps == plan.steps@,
            ids@.len() == n,
            i <= n,
            forall|a: int, k: int|
                0 <= a < n && 0 <= k < psteps[a].depends_on@.len() ==> (
                #[trigger] psteps[a].depends_on@[k]) < n && psteps[a].depends_on@[k] != a,
            edges@ == plan_edges(psteps, ids@, i as int),
        decreases n - i,
    {
        let deps = &plan.steps[i].depends_on;
        let ghost base = edges@;
        let mut k: usize = 0;
        while k < deps.len()
            invariant
                i < n,
                ids@.len() == n,
                deps@ == psteps[i as int].depends_on@,
                forall|j: int| 0 <= j < deps@.len() ==> (#[trigger] deps@[j]) < n,
                k <= deps.len(),
                edges@ == base + deps@.take(k as int).map_values(
                    |d: usize| (ids@[d as int], ids@[i as int]),
                ),
            decreases deps.len() - k,
        {
            edges.push((ids[deps[k]], ids[i]));
            k = k + 1;
            assert(deps@.take(k as int).map_values(|d: usize| (ids@[d as int], ids@[i as int]))
                =~= deps@.take(k - 1).map_values(|d: usize| (ids@[d as int], ids@[i as int])).push(
                (ids@[deps@[k - 1] as int], ids@[i as int]),
            ));
        }
        assert(deps@.take(k as int) =~= deps@);
        i = i + 1;
    }
    let roots = roots_in(ids, &edges);
    let mut dag = ExecutionDag { workflow_id, steps, edges, root_steps: roots };
    proof {
        assert(step_ids(dag.steps@) =~= ids@) by {
            assert forall|a: int| 0 <= a < n implies step_ids(dag.steps@)[a] == ids@[a] by {
                assert(step_from_plan(dag.steps@[a], psteps[a], ids@, a));
            }
        }
        assert(sensitive_ids(dag.steps@) =~= hinted_sensitive_ids(psteps, ids@)) by {
            assert forall|id: u128| sensitive_ids(dag.steps@).contains(id) implies hinted_sensitive_ids(
                psteps,
                ids@,
            ).contains(id) by {
                let a = choose|a: int|
                    0 <= a < dag.steps@.len() && #[trigger] dag.steps@[a].step_id == id
                        && dag.steps@[a].sensitivity == PromptSensitivity::Sensitive;
                assert(step_from_plan(dag.steps@[a], psteps[a], ids@, a));
                assert(ids@[a] == id);
            }
            assert forall|id: u128| hinted_sensitive_ids(psteps, ids@).contains(id) implies sensitive_ids(
                dag.steps@,
            ).contains(id) by {
                let a = choose|a: int|
                    0 <= a < psteps.len() && #[trigger] ids@[a] == id && hinted_sensitivity(
                        psteps[a],
                    ) == PromptSensitivity::Sensitive;
                assert(step_from_plan(dag.steps@[a], psteps[a], ids@, a));
                assert(dag.steps@[a].step_id == id);
            }
        }
    }
    match dag.topological_sort() {
        None => {
            return Err(DagBuildError::CycleDetected);
        },
        Some(o) => {
            assert(is_topological_order(dag.ids(), dag.edges@, o@));
        },
    }
    let ghost before = dag.steps@;
    dag.propagate_sensitivity();
    proof {
        assert forall|a: int| 0 <= a < dag.steps@.len() implies step_from_plan(
            #[trigger] dag.steps@[a],
            psteps[a],
            ids@,
            a,
        ) by {
            assert(step_from_plan(before[a], psteps[a], ids@, a));
            assert(dag.steps@[a] == (ExecutionStep { sensitivity: dag.steps@[a].sensitivity, ..before[a] }));
        }
        assert(step_ids(dag.steps@) =~= ids@) by {
            assert forall|a: int| 0 <= a < n implies step_ids(dag.steps@)[a] == ids@[a] by {
                assert(step_from_plan(dag.steps@[a], psteps[a], ids@, a));
            }
        }
        assert(dag.workflow_id == workflow_id);
        assert(dag.edges@ == plan_edges(psteps, ids@, n as int));
        assert(dag.root_steps@ == roots_of(ids@, dag.edges@));
        assert(least_closed_extension(
            ids@,
            dag.edges@,
            hinted_sensitive_ids(psteps, ids@),
            sensitive_ids(dag.steps@),
        ));
    }
    Ok(dag)
}


/// Whether the IDs are pairwise distinct.
pub fn all_distinct(ids: &Vec<u128>) -> (r: bool)
    ensures
        r == ids@.no_duplicates(),
{
    let mut i: usize = 0;
    while i < ids.len()
        invariant
            i <= ids.len(),
            forall|a: int, b: int| 0 <= a < i && 0 <= b < ids.len() && a != b ==> ids@[a] != ids@[b],
        decreases ids.len() - i,
    {
        let mut j: usize = 0;
        while j < ids.len()
            invariant
                i < ids.len(),
                j <= ids.len(),
                forall|a: int, b: int| 0 <= a < i && 0 <= b < ids.len() && a != b ==> ids@[a] != ids@[b],
                forall|b: int| 0 <= b < j && b != i ==> ids@[i as int] != ids@[b],
            decreases ids.len() - j,
        {
            if j != i && ids[i] == ids[j] {
                return false;
            }
            j = j + 1;
        }
        i = i + 1;
    }
    true
}

/// `n` pairwise distinct step IDs: random UUIDs, or (should two random draws
/// coincide) the numbers `1..=n`.
pub fn fresh_ids(n: usize) -> (ids: Vec<u128>)
    ensures
        ids@.len() == n,
        ids@.no_duplicates(),
{
    let mut ids: Vec<u128> = Vec::new();
    let mut k: usize = 0;
    while k < n
        invariant
            k <= n,
            ids@.len() == k,
        decreases n - k,
    {
        ids.push(new_uuid());
        k = k + 1;
    }
    if all_distinct(&ids) {
        return ids;
    }
    let mut seq_ids: Vec<u128> = Vec::new();
    let mut k: usize = 0;
    while k < n
        invariant
            k <= n,
            seq_ids@.len() == k,
            forall|a: int| 0 <= a < k ==> seq_ids@[a] == a + 1,
        decreases n - k,
    {
        seq_ids.push(k as u128 + 1);
        k = k + 1;
    }
    seq_ids
}

/// Builds the execution DAG of an agent plan: one step per plan step with a
/// fresh ID, one edge per declared dependency, the root steps, a cycle check
/// and sensitivity propagation.
pub fn build_execution_dag(plan: &AgentPlan) -> (r: Result<ExecutionDag, DagBuildError>)
    ensures
        plan.steps@.len() == 0 ==> r == Err::<ExecutionDag, DagBuildError>(
            DagBuildError::EmptyPlan,
        ),
        plan.steps@.len() > 0 && plan_dep_error(plan.steps@, 0) is Some ==> r == Err::<
            ExecutionDag,
            DagBuildError,
        >(plan_dep_error(plan.steps@, 0)->0),
        plan.steps@.len() > 0 && plan_dep_error(plan.steps@, 0) is None ==> match r {
            Ok(dag) => dag_built_from(dag, *plan, dag.workflow_id, dag.ids()) && acyclic(
                dag.ids(),
                dag.edges@,
            ),
            Err(e) => e == DagBuildError::CycleDetected && exists|ids: Seq<u128>|
                ids.len() == plan.steps@.len() && ids.no_duplicates() && !acyclic(
                    ids,
                    plan_edges(plan.steps@, ids, plan.steps@.len() as int),
                ),
        },
        plan.steps@.len() > 0 && plan_dep_error(plan.steps@, 0) is None ==> (r is Err <==> plan_has_cycle(plan.steps@)),
{
    if plan.steps.len() == 0 {
        return Err(DagBuildError::EmptyPlan);
    }
    let workflow_id = new_uuid();
    let ids = fresh_ids(plan.steps.len());
    let r = build_execution_dag_with_ids(plan, workflow_id, &ids);
    proof {
        if plan_dep_error(plan.steps@, 0) is None {
            law_cycle_independent_of_ids(plan.steps@, ids@);
            if r is Err {
                assert(ids@.len() == plan.steps@.len() && ids@.no_duplicates() && !acyclic(
                    ids@,
                    plan_edges(plan.steps@, ids@, plan.steps@.len() as int),
                ));
            }
        }
    }
    r
}


// ─── Cycles do not depend on the step IDs ───────────────────────────────────

/// The plan's steps named by their indices: step `i` is `i`.
pub open spec fn index_ids(n: nat) -> Seq<u128> {
    Seq::new(n, |i: int| i as u128)
}

/// The plan's dependencies form a cycle, read on the step indices: an edge
/// from each dependency's index to its step's index.
pub open spec fn plan_has_cycle(steps: Seq<AgentPlanStep>) -> bool {
    !acyclic(index_ids(steps.len()), plan_edges(steps, index_ids(steps.len()), steps.len() as int))
}

/// The name in `to` of the element `x` of `from` (same position).
pub open spec fn relabel(from: Seq<u128>, to: Seq<u128>, x: u128) -> u128 {
    to[choose|i: int| 0 <= i < from.len() && from[i] == x]
}

/// An edge with both ends renamed.
pub open spec fn relabel_edge(from: Seq<u128>, to: Seq<u128>, e: (u128, u128)) -> (u128, u128) {
    (relabel(from, to, e.0), relabel(from, to, e.1))
}

proof fn lemma_relabel_at(from: Seq<u128>, to: Seq<u128>, i: int)
    requires
        from.no_duplicates(),
        0 <= i < from.len(),
    ensures
        relabel(from, to, from[i]) == to[i],
{
    assert(0 <= i < from.len() && from[i] == from[i]);
    let j = choose|j: int| 0 <= j < from.len() && from[j] == from[i];
    assert(j == i);
}

proof fn lemma_step_deps_in_range(n: nat, i: nat, deps: Seq<usize>, k: int)
    requires
        0 <= k,
        step_dep_error(n, i, deps, k) is None,
    ensures
        forall|j: int| k <= j < deps.len() ==> (deps[j] as int) < n,
    decreases deps.len() - k,
{
    if k < deps.len() {
        lemma_step_deps_in_range(n, i, deps, k + 1);
    }
}

proof fn lemma_plan_deps_in_range(steps: Seq<AgentPlanStep>, i: int)
    requires
        0 <= i,
        plan_dep_error(steps, i) is None,
    ensures
        forall|j: int, k: int|
            i <= j < steps.len() && 0 <= k < steps[j].depends_on@.len() ==> (#[trigger] steps[j].depends_on@[k] as int)
                < steps.len(),
    decreases steps.len() - i,
{
    if i < steps.len() {
        lemma_step_deps_in_range(steps.len(), i as nat, steps[i].depends_on@, 0);
        lemma_plan_deps_in_range(steps, i + 1);
    }
}

/// With every dependency in range, the plan's edges under other IDs are its
/// edges renamed, and they join IDs of steps.
proof fn lemma_plan_edges_relabel(steps: Seq<AgentPlanStep>, a: Seq<u128>, b: Seq<u128>, i: int)
    requires
        0 <= i <= steps.len(),
        a.len() == steps.len(),
        b.len() == steps.len(),
        a.no_duplicates(),
        forall|j: int, k: int|
            0 <= j < steps.len() && 0 <= k < steps[j].depends_on@.len() ==> (#[trigger] steps[j].depends_on@[k] as int)
                < steps.len(),
    ensures
        plan_edges(steps, b, i) == plan_edges(steps, a, i).map_values(|e: (u128, u128)| relabel_edge(a, b, e)),
        forall|e: int|
            0 <= e < plan_edges(steps, a, i).len() ==> a.contains((#[trigger] plan_edges(steps, a, i)[e]).0) && a.contains(
                plan_edges(steps, a, i)[e].1,
            ),
    decreases i,
{
    if i > 0 {
        lemma_plan_edges_relabel(steps, a, b, i - 1);
        let deps = steps[i - 1].depends_on@;
        let pa = plan_edges(steps, a, i - 1);
        let new_a = deps.map_values(|d: usize| (a[d as int], a[i - 1]));
        let new_b = deps.map_values(|d: usize| (b[d as int], b[i - 1]));
        lemma_relabel_at(a, b, i - 1);
        assert forall|k: int| 0 <= k < deps.len() implies new_b[k] == relabel_edge(a, b, new_a[k]) && a.contains(
            new_a[k].0,
        ) && a.contains(new_a[k].1) by {
            assert((steps[i - 1].depends_on@[k] as int) < steps.len());
            lemma_relabel_at(a, b, deps[k] as int);
            assert(a[deps[k] as int] == new_a[k].0);
            assert(a[i - 1] == new_a[k].1);
        }
        assert(plan_edges(steps, b, i) =~= (pa + new_a).map_values(|e: (u128, u128)| relabel_edge(a, b, e)));
        let pe = plan_edges(steps, a, i);
        assert(pe == pa + new_a);
        assert forall|e: int| 0 <= e < pe.len() implies a.contains((#[trigger] pe[e]).0) && a.contains(pe[e].1) by {
            if e >= pa.len() {
                let k = e - pa.len();
                assert(pe[e] == new_a[k]);
                assert((steps[i - 1].depends_on@[k] as int) < steps.len());
                assert(a[deps[k] as int] == pe[e].0);
                assert(a[i - 1] == pe[e].1);
            } else {
                assert(pe[e] == pa[e]);
                assert(a.contains(pa[e].0) && a.contains(pa[e].1));
            }
        }
    }
}

/// A topological order under IDs `a`, renamed, is one under IDs `b`.
proof fn lemma_relabel_order(a: Seq<u128>, b: Seq<u128>, edges: Seq<(u128, u128)>, o: Seq<u128>)
    requires
        a.len() == b.len(),
        a.no_duplicates(),
        b.no_duplicates(),
        forall|e: int| 0 <= e < edges.len() ==> a.contains(#[trigger] edges[e].0) && a.contains(edges[e].1),
        is_topological_order(a, edges, o),
    ensures
        is_topological_order(
            b,
            edges.map_values(|e: (u128, u128)| relabel_edge(a, b, e)),
            o.map_values(|x: u128| relabel(a, b, x)),
        ),
{
    let o2 = o.map_values(|x: u128| relabel(a, b, x));
    let e2 = edges.map_values(|e: (u128, u128)| relabel_edge(a, b, e));
    // every element of `o` sits at some position of `a`
    assert forall|k: int| #![trigger o[k]] 0 <= k < o.len() implies exists|p: int| #![trigger a[p]] 0 <= p < a.len() && a[p] == o[k] && o2[k] == b[p] by {
        assert(a.contains(o[k]));
        let p = choose|p: int| 0 <= p < a.len() && a[p] == o[k];
        lemma_relabel_at(a, b, p);
    }
    assert forall|x: int, y: int| 0 <= x < o2.len() && 0 <= y < o2.len() && x != y implies o2[x] != o2[y] by {
        let px = choose|p: int| 0 <= p < a.len() && a[p] == o[x] && o2[x] == b[p];
        let py = choose|p: int| 0 <= p < a.len() && a[p] == o[y] && o2[y] == b[p];
        if o2[x] == o2[y] {
            assert(b[px] == b[py]);
            assert(px == py);
            assert(o[x] == o[y]);
        }
    }
    assert forall|k: int| 0 <= k < o2.len() implies b.contains(#[trigger] o2[k]) by {
        let p = choose|p: int| 0 <= p < a.len() && a[p] == o[k] && o2[k] == b[p];
        assert(b[p] == o2[k]);
    }
    assert forall|k: int| 0 <= k < b.len() implies o2.contains(#[trigger] b[k]) by {
        assert(o.contains(a[k]));
        let p = choose|p: int| 0 <= p < o.len() && o[p] == a[k];
        lemma_relabel_at(a, b, k);
        assert(o2[p] == b[k]);
    }
    assert forall|e: int, j: int|
        #![trigger o2[j], e2[e]]
        0 <= e < e2.len() && 0 <= j < o2.len() && o2[j] == e2[e].1 implies o2.take(j).contains(e2[e].0) by {
        assert(a.contains(edges[e].1));
        let pb = choose|p: int| 0 <= p < a.len() && a[p] == edges[e].1;
        lemma_relabel_at(a, b, pb);
        let pj = choose|p: int| 0 <= p < a.len() && a[p] == o[j] && o2[j] == b[p];
        assert(b[pj] == b[pb]);
        assert(pj == pb);
        assert(o[j] == edges[e].1);
        assert(o.take(j).contains(edges[e].0));
        let q = choose|q: int| 0 <= q < o.take(j).len() && o.take(j)[q] == edges[e].0;
        assert(o2.take(j)[q] == relabel(a, b, edges[e].0));
    }
}

/// The index IDs are pairwise distinct.
proof fn lemma_index_ids_distinct(n: nat)
    requires
        n <= usize::MAX,
    ensures
        index_ids(n).no_duplicates(),
{
    assert forall|i: int, j: int| 0 <= i < n && 0 <= j < n && i != j implies index_ids(n)[i] != index_ids(n)[j] by {
        assert(index_ids(n)[i] == i as u128);
        assert(index_ids(n)[j] == j as u128);
    }
}

/// Law: whether a plan's steps form a cycle does not depend on the IDs they
/// are given: under any pairwise distinct IDs, the DAG's edges are acyclic
/// exactly when the plan's dependencies, read on step indices, have no
/// cycle.
pub proof fn law_cycle_independent_of_ids(steps: Seq<AgentPlanStep>, ids: Seq<u128>)
    requires
        steps.len() <= usize::MAX,
        ids.len() == steps.len(),
        ids.no_duplicates(),
        plan_dep_error(steps, 0) is None,
    ensures
        acyclic(ids, plan_edges(steps, ids, steps.len() as int)) <==> !plan_has_cycle(steps),
{
    let n = steps.len();
    let idx = index_ids(n);
    lemma_index_ids_distinct(n);
    lemma_plan_deps_in_range(steps, 0);
    lemma_plan_edges_relabel(steps, ids, idx, n as int);
    lemma_plan_edges_relabel(steps, idx, ids, n as int);
    if acyclic(ids, plan_edges(steps, ids, n as int)) {
        let o = choose|o: Seq<u128>| is_topological_order(ids, plan_edges(steps, ids, n as int), o);
        lemma_relabel_order(ids, idx, plan_edges(steps, ids, n as int), o);
        assert(is_topological_order(idx, plan_edges(steps, idx, n as int), o.map_values(|x: u128| relabel(ids, idx, x))));
    }
    if acyclic(idx, plan_edges(steps, idx, n as int)) {
        let o = choose|o: Seq<u128>| is_topological_order(idx, plan_edges(steps, idx, n as int), o);
        lemma_relabel_order(idx, ids, plan_edges(steps, idx, n as int), o);
        assert(is_topological_order(ids, plan_edges(steps, ids, n as int), o.map_values(|x: u128| relabel(idx, ids, x))));
    }
}

// ─── Messages ───────────────────────────────────────────────────────────────

/// The message of a DAG build error.
pub open spec fn dag_build_error_text(e: DagBuildError) -> Seq<char> {
    match e {
        DagBuildError::InvalidDependencyIndex { step_index, dependency_index, plan_length } =>
            "Step "@ + decimal(step_index as nat) + " references dependency index "@ + decimal(
            dependency_index as nat,
        ) + " but plan only has "@ + decimal(plan_length as nat) + " steps"@,
        DagBuildError::SelfDependency { step_index } => "Step "@ + decimal(step_index as nat)
            + " depends on itself"@,
        DagBuildError::CycleDetected => "Agent plan contains a dependency cycle"@,
        DagBuildError::EmptyPlan => "Agent plan has no steps"@,
    }
}

/// The message of a DAG validation error.
pub open spec fn dag_validation_error_text(e: DagValidationError) -> Seq<char> {
    match e {
        DagValidationError::CycleDetected => "DAG contains a cycle"@,
        DagValidationError::InvalidEdge { from, to, missing } => "Edge ("@ + uuid_hyphenated(from)
            + " -> "@ + uuid_hyphenated(to) + ") references non-existent step "@
            + uuid_hyphenated(missing),
    }
}

impl DagBuildError {
    /// The human-readable message of the error.
    pub fn to_text(&self) -> (s: String)
        ensures
            s@ == dag_build_error_text(*self),
    {
        let mut out: Vec<char> = Vec::new();
        match self {
            DagBuildError::InvalidDependencyIndex { step_index, dependency_index, plan_length } => {
                push_str(&mut out, "Step ");
                push_decimal(&mut out, *step_index as u64);
                push_str(&mut out, " references dependency index ");
                push_decimal(&mut out, *dependency_index as u64);
                push_str(&mut out, " but plan only has ");
                push_decimal(&mut out, *plan_length as u64);
                push_str(&mut out, " steps");
            },
            DagBuildError::SelfDependency { step_index } => {
                push_str(&mut out, "Step ");
                push_decimal(&mut out, *step_index as u64);
                push_str(&mut out, " depends on itself");
            },
            DagBuildError::CycleDetected => {
                push_str(&mut out, "Agent plan contains a dependency cycle");
            },
            DagBuildError::EmptyPlan => {
                push_str(&mut out, "Agent plan has no steps");
            },
        }
        string_from_chars(&out)
    }
}

impl DagValidationError {
    /// The human-readable message of the error.
    pub fn to_text(&self) -> (s: String)
        ensures
            s@ == dag_validation_error_text(*self),
    {
        let mut out: Vec<char> = Vec::new();
        match self {
            DagValidationError::CycleDetected => {
                push_str(&mut out, "DAG contains a cycle");
            },
            DagValidationError::InvalidEdge { from, to, missing } => {
                push_str(&mut out, "Edge (");
                push_str(&mut out, uuid_string(*from).as_str());
                push_str(&mut out, " -> ");
                push_str(&mut out, uuid_string(*to).as_str());
                push_str(&mut out, ") references non-existent step ");
                push_str(&mut out, uuid_string(*missing).as_str());
            },
        }
        string_from_chars(&out)
    }
}

} // verus!
