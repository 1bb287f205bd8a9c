//! Workflow orchestrator: starts workflows from agent plans, cancels them,
//! reports progress and events, and adds steps while a workflow runs.
use vstd::prelude::*;

use crate::agents::dag::{
    acyclic, build_execution_dag, collect_step_ids, contains_id, hinted_sensitivity, index_of_id,
    is_topological_order, sensitive_ids, topological_order, PromptSensitivity, dag_build_error_text, dag_built_from,
    effective_estimate, plan_dep_error, plan_edges, plan_has_cycle, step_ids, AgentPlan, AgentPlanStep, DagBuildError,
    ExecutionDag, ExecutionStep, StepStatus,
};
use crate::agents::protocol::{DistributedAgentConfig, WorkflowState, WorkflowStatus};
use crate::clock::now_unix_millis;
use crate::ids::{fresh_id_avoiding, uuid_hyphenated, uuid_string};
use crate::text::{decimal, push_decimal, push_str, string_from_chars};

verus! {

/// Errors of orchestrator operations.
#[derive(Debug, Clone, PartialEq)]
pub enum OrchestratorError {
    WorkflowNotFound(u128),
    DagBuildFailed(String),
    CycleDetected,
    WorkflowAlreadyComplete,
}

/// The message of an orchestrator error.
pub open spec fn orchestrator_error_text(e: OrchestratorError) -> Seq<char> {
    match e {
        OrchestratorError::WorkflowNotFound(id) => "Workflow not found: "@ + uuid_hyphenated(id),
        OrchestratorError::DagBuildFailed(reason) => "DAG build failed: "@ + reason@,
        OrchestratorError::CycleDetected => "Adding step would create a cycle in the DAG"@,
        OrchestratorError::WorkflowAlreadyComplete => "Workflow has already completed or failed"@,
    }
}

impl OrchestratorError {
    /// The human-readable message of the error.
    pub fn to_text(&self) -> (s: String)
        ensures
            s@ == orchestrator_error_text(*self),
    {
        let mut out: Vec<char> = Vec::new();
        match self {
            OrchestratorError::WorkflowNotFound(id) => {
                push_str(&mut out, "Workflow not found: ");
                push_str(&mut out, uuid_string(*id).as_str());
            },
            OrchestratorError::DagBuildFailed(reason) => {
                push_str(&mut out, "DAG build failed: ");
                push_str(&mut out, reason.as_str());
            },
            OrchestratorError::CycleDetected => {
                push_str(&mut out, "Adding step would create a cycle in the DAG");
            },
            OrchestratorError::WorkflowAlreadyComplete => {
                push_str(&mut out, "Workflow has already completed or failed");
            },
        }
        string_from_chars(&out)
    }
}

/// Progress summary of a workflow for the UI.
#[derive(Debug, Clone, PartialEq)]
pub struct WorkflowProgress {
    pub workflow_id: u128,
    pub total_steps: u32,
    pub completed_steps: u32,
    pub running_steps: u32,
    pub waiting_steps: u32,
    pub failed_steps: u32,
    pub cancelled_steps: u32,
    pub estimated_remaining_ms: u64,
    pub status: WorkflowStatus,
}

/// Events emitted for the UI.
#[derive(Debug, Clone)]
pub enum WorkflowEvent {
    WorkflowStarted { workflow_id: u128, total_steps: u32 },
    StepStarted { workflow_id: u128, step_id: u128, description: String, assigned_node: Option<u128> },
    StepCompleted { workflow_id: u128, step_id: u128, compute_time_ms: u64 },
    StepFailed { workflow_id: u128, step_id: u128, reason: String },
    StepAdded { workflow_id: u128, step_id: u128, description: String },
    WorkflowCompleted { workflow_id: u128 },
    WorkflowFailed { workflow_id: u128, reason: String },
}

/// The orchestrator of the workflows requested on this node.
pub struct WorkflowOrchestrator {
    local_node_id: u128,
    /// The workflows started on this node, in start order.
    pub workflows: Vec<WorkflowState>,
    config: DistributedAgentConfig,
    events: Vec<WorkflowEvent>,
}

// ─── Specifications ─────────────────────────────────────────────────────────

/// The workflow IDs, in order.
pub open spec fn workflow_ids(ws: Seq<WorkflowState>) -> Seq<u128> {
    ws.map_values(|w: WorkflowState| w.workflow_id)
}

/// Some workflow has ID `id`.
pub open spec fn has_workflow(ws: Seq<WorkflowState>, id: u128) -> bool {
    exists|i: int| 0 <= i < ws.len() && #[trigger] ws[i].workflow_id == id
}

/// The position of the workflow with ID `id`.
pub open spec fn workflow_index(ws: Seq<WorkflowState>, id: u128) -> int {
    choose|i: int| 0 <= i < ws.len() && #[trigger] ws[i].workflow_id == id
}

/// A workflow is well formed: distinct step IDs, and its step total is the
/// number of its steps.
pub open spec fn workflow_wf(w: WorkflowState) -> bool {
    &&& w.dag.wf()
    &&& w.total_steps == w.dag.steps@.len()
}

/// The status is final.
pub open spec fn is_terminal(s: WorkflowStatus) -> bool {
    s is Completed || s is Failed
}

/// The status is active (running or paused).
pub open spec fn is_active(s: WorkflowStatus) -> bool {
    s is Running || s is Paused
}

/// `after` is `before` with every root step marked ready.
pub open spec fn roots_marked_ready(
    before: Seq<ExecutionStep>,
    after: Seq<ExecutionStep>,
    roots: Seq<u128>,
) -> bool {
    &&& after.len() == before.len()
    &&& forall|i: int|
        #![trigger after[i]]
        0 <= i < before.len() ==> after[i] == (ExecutionStep {
            status: if roots.contains(before[i].step_id) {
                StepStatus::Ready
            } else {
                before[i].status
            },
            ..before[i]
        })
}

/// `after` is `before` with every step that had not finished cancelled.
pub open spec fn unfinished_cancelled(before: Seq<ExecutionStep>, after: Seq<ExecutionStep>) -> bool {
    &&& after.len() == before.len()
    &&& forall|i: int|
        #![trigger after[i]]
        0 <= i < before.len() ==> after[i] == (ExecutionStep {
            status: if before[i].status is Pending || before[i].status is Ready
                || before[i].status is Dispatched || before[i].status is Running {
                StepStatus::Cancelled
            } else {
                before[i].status
            },
            ..before[i]
        })
}

/// Step counts of a list of steps, in the order completed, running, waiting,
/// failed, cancelled, and the remaining-time estimate (waiting steps count in
/// full, running steps count half).
pub open spec fn progress_counts(steps: Seq<ExecutionStep>) -> (nat, nat, nat, nat, nat, nat)
    decreases steps.len(),
{
    if steps.len() == 0 {
        (0, 0, 0, 0, 0, 0)
    } else {
        let (c, r, w, f, x, ms) = progress_counts(steps.drop_last());
        let s = steps.last();
        match s.status {
            StepStatus::Completed => (c + 1, r, w, f, x, ms),
            StepStatus::Dispatched | StepStatus::Running => (
                c,
                r + 1,
                w,
                f,
                x,
                ms + (s.estimated_compute_ms / 2) as nat,
            ),
            StepStatus::Pending | StepStatus::Ready => (
                c,
                r,
                w + 1,
                f,
                x,
                ms + s.estimated_compute_ms as nat,
            ),
            StepStatus::Failed { .. } => (c, r, w, f + 1, x, ms),
            StepStatus::Cancelled => (c, r, w, f, x + 1, ms),
        }
    }
}

/// The step is under way: dispatched or running.
pub open spec fn step_under_way(s: ExecutionStep) -> bool {
    s.status is Dispatched || s.status is Running
}

/// The step waits to run: pending or ready.
pub open spec fn step_waiting(s: ExecutionStep) -> bool {
    s.status is Pending || s.status is Ready
}

/// The sum of a list of numbers.
pub open spec fn sum_of(v: Seq<nat>) -> nat
    decreases v.len(),
{
    if v.len() == 0 {
        0
    } else {
        sum_of(v.drop_last()) + v.last()
    }
}

proof fn lemma_filter_push(steps: Seq<ExecutionStep>, p: spec_fn(ExecutionStep) -> bool)
    requires
        steps.len() > 0,
    ensures
        steps.filter(p) == if p(steps.last()) {
            steps.drop_last().filter(p).push(steps.last())
        } else {
            steps.drop_last().filter(p)
        },
{
    reveal(Seq::filter);
}

proof fn lemma_sum_push(v: Seq<nat>, x: nat)
    ensures
        sum_of(v.push(x)) == sum_of(v) + x,
{
    assert(v.push(x).drop_last() =~= v);
}

/// Law: a workflow's progress counts its steps by status: the completed
/// ones, those under way (dispatched or running), those waiting (pending or
/// ready), the failed and the cancelled; the remaining-time estimate adds
/// half the estimate of each step under way and the whole estimate of each
/// waiting step.
pub proof fn law_progress_counts(steps: Seq<ExecutionStep>)
    ensures
        progress_counts(steps).0 == steps.filter(|s: ExecutionStep| s.status is Completed).len(),
        progress_counts(steps).1 == steps.filter(|s: ExecutionStep| step_under_way(s)).len(),
        progress_counts(steps).2 == steps.filter(|s: ExecutionStep| step_waiting(s)).len(),
        progress_counts(steps).3 == steps.filter(|s: ExecutionStep| s.status is Failed).len(),
        progress_counts(steps).4 == steps.filter(|s: ExecutionStep| s.status is Cancelled).len(),
        progress_counts(steps).5 == sum_of(
            steps.filter(|s: ExecutionStep| step_under_way(s)).map_values(
                |s: ExecutionStep| (s.estimated_compute_ms / 2) as nat,
            ),
        ) + sum_of(
            steps.filter(|s: ExecutionStep| step_waiting(s)).map_values(|s: ExecutionStep| s.estimated_compute_ms as nat),
        ),
    decreases steps.len(),
{
    let pc = |s: ExecutionStep| s.status is Completed;
    let pr = |s: ExecutionStep| step_under_way(s);
    let pw = |s: ExecutionStep| step_waiting(s);
    let pf = |s: ExecutionStep| s.status is Failed;
    let px = |s: ExecutionStep| s.status is Cancelled;
    let hr = |s: ExecutionStep| (s.estimated_compute_ms / 2) as nat;
    let hw = |s: ExecutionStep| s.estimated_compute_ms as nat;
    if steps.len() == 0 {
        reveal(Seq::filter);
        assert(steps.filter(pr).map_values(hr) =~= Seq::<nat>::empty());
        assert(steps.filter(pw).map_values(hw) =~= Seq::<nat>::empty());
    } else {
        let pre = steps.drop_last();
        let s = steps.last();
        law_progress_counts(pre);
        lemma_filter_push(steps, pc);
        lemma_filter_push(steps, pr);
        lemma_filter_push(steps, pw);
        lemma_filter_push(steps, pf);
        lemma_filter_push(steps, px);
        if pr(s) {
            assert(pre.filter(pr).push(s).map_values(hr) =~= pre.filter(pr).map_values(hr).push(hr(s)));
            lemma_sum_push(pre.filter(pr).map_values(hr), hr(s));
        }
        if pw(s) {
            assert(pre.filter(pw).push(s).map_values(hw) =~= pre.filter(pw).map_values(hw).push(hw(s)));
            lemma_sum_push(pre.filter(pw).map_values(hw), hw(s));
        }
    }
}

/// Every step is completed or cancelled.
pub open spec fn all_finished(steps: Seq<ExecutionStep>) -> bool {
    forall|i: int|
        0 <= i < steps.len() ==> (#[trigger] steps[i]).status is Completed || steps[i].status is Cancelled
}

/// The message of a start refused for its size.
pub open spec fn too_many_steps_text(n: nat, max: nat) -> Seq<char> {
    "Workflow has "@ + decimal(n) + " steps, exceeding maximum of "@ + decimal(max)
}

/// The message of a missing dependency.
pub open spec fn missing_dependency_text(d: u128) -> Seq<char> {
    "Dependency step "@ + uuid_hyphenated(d) + " does not exist in the DAG"@
}

/// The reason recorded for a cancelled workflow.
pub open spec fn cancel_reason() -> Seq<char> {
    "Workflow cancelled by user"@
}

/// The step made from a plan step added at run time, before its status and
/// sensitivity are settled.
pub open spec fn added_step(st: ExecutionStep, ps: AgentPlanStep, id: u128, deps: Seq<u128>) -> bool {
    &&& st.step_id == id
    &&& st.description == ps.description
    &&& st.required_model == ps.model
    &&& st.required_tools@ == ps.tools@
    &&& st.estimated_compute_ms == effective_estimate(ps.estimated_compute_ms)
    &&& st.input_dependencies@ == deps
    &&& st.assigned_node is None
    &&& st.result is None
}

/// The IDs of the steps of `steps` that are completed.
pub open spec fn completed_ids(steps: Seq<ExecutionStep>) -> Set<u128> {
    Set::new(
        |id: u128|
            exists|i: int|
                0 <= i < steps.len() && #[trigger] steps[i].step_id == id && steps[i].status is Completed,
    )
}

/// Every ID appearing as an endpoint of an edge.
pub open spec fn edge_endpoints(edges: Seq<(u128, u128)>) -> Set<u128> {
    Set::new(
        |id: u128|
            exists|e: int| #![trigger edges[e]] 0 <= e < edges.len() && (edges[e].0 == id || edges[e].1 == id),
    )
}

impl WorkflowOrchestrator {
    /// The workflows, in order.
    pub closed spec fn workflows_view(&self) -> Seq<WorkflowState> {
        self.workflows@
    }

    /// The events emitted and not yet drained, oldest first.
    pub closed spec fn events_view(&self) -> Seq<WorkflowEvent> {
        self.events@
    }

    /// The node the orchestrator runs on.
    pub closed spec fn node_view(&self) -> u128 {
        self.local_node_id
    }

    /// The configuration.
    pub closed spec fn config_view(&self) -> DistributedAgentConfig {
        self.config
    }

    /// Workflow IDs are distinct and every workflow is well formed.
    pub closed spec fn wf(&self) -> bool {
        &&& workflow_ids(self.workflows@).no_duplicates()
        &&& forall|i: int| 0 <= i < self.workflows@.len() ==> workflow_wf(#[trigger] self.workflows@[i])
    }

    /// An orchestrator on `local_node_id` with no workflows.
    pub fn new(local_node_id: u128, config: DistributedAgentConfig) -> (o: Self)
        ensures
            o.wf(),
            o.workflows_view() == Seq::<WorkflowState>::empty(),
            o.events_view() == Seq::<WorkflowEvent>::empty(),
            o.node_view() == local_node_id,
            o.config_view() == config,
    {
        let o = WorkflowOrchestrator { local_node_id, workflows: Vec::new(), config, events: Vec::new() };
        assert(workflow_ids(o.workflows@) =~= Seq::<u128>::empty());
        o
    }

    /// The node the orchestrator runs on.
    pub fn local_node_id(&self) -> (id: u128)
        ensures
            id == self.node_view(),
    {
        self.local_node_id
    }

    /// Position of the workflow `id`, if present.
    fn find(&self, id: u128) -> (r: Option<usize>)
        requires
            self.wf(),
        ensures
            match r {
                Some(i) => i < self.workflows@.len() && self.workflows@[i as int].workflow_id == id
                    && i == workflow_index(self.workflows@, id) && has_workflow(self.workflows@, id),
                None => !has_workflow(self.workflows@, id),
            },
    {
        let mut i: usize = 0;
        while i < self.workflows.len()
            invariant
                self.wf(),
                i <= self.workflows@.len(),
                forall|j: int| 0 <= j < i ==> self.workflows@[j].workflow_id != id,
            decreases self.workflows.len() - i,
        {
            if self.workflows[i].workflow_id == id {
                proof {
                    assert(self.workflows@[i as int].workflow_id == id);
                    let k = workflow_index(self.workflows@, id);
                    assert(self.workflows@[k].workflow_id == id);
                    assert(workflow_ids(self.workflows@)[k] == self.workflows@[k].workflow_id);
                    assert(workflow_ids(self.workflows@)[i as int] == self.workflows@[i as int].workflow_id);
                    if k != i {
                        assert(workflow_ids(self.workflows@)[k] == workflow_ids(self.workflows@)[i as int]);
                    }
                }
                return Some(i);
            }
            i = i + 1;
        }
        None
    }

    /// Starts a workflow from an agent plan: builds its DAG, refuses it when
    /// it has more steps than allowed, marks the root steps ready, records the
    /// workflow as running and emits `WorkflowStarted`.
    pub fn start_workflow(&mut self, plan: &AgentPlan) -> (r: Result<u128, OrchestratorError>)
        requires
            old(self).wf(),
        ensures
            final(self).wf(),
            final(self).node_view() == old(self).node_view(),
            final(self).config_view() == old(self).config_view(),
            plan.steps@.len() == 0 ==> (r matches Err(OrchestratorError::DagBuildFailed(m))
                && m@ == dag_build_error_text(DagBuildError::EmptyPlan)),
            plan.steps@.len() > 0 && plan_dep_error(plan.steps@, 0) is Some ==> (r matches Err(
                OrchestratorError::DagBuildFailed(m),
            ) && m@ == dag_build_error_text(plan_dep_error(plan.steps@, 0)->0)),
            plan.steps@.len() > 0 && plan_dep_error(plan.steps@, 0) is None && plan.steps@.len()
                <= old(self).config_view().max_workflow_steps && !plan_has_cycle(plan.steps@) ==> r is Ok,
            plan.steps@.len() > 0 && plan_dep_error(plan.steps@, 0) is None && plan_has_cycle(plan.steps@) ==> (r matches Err(
                OrchestratorError::DagBuildFailed(m),
            ) && m@ == dag_build_error_text(DagBuildError::CycleDetected)),
            match r {
                Ok(wid) => {
                    let ws = final(self).workflows_view();
                    let k = workflow_index(ws, wid);
                    let st = ws[k];
                    &&& has_workflow(ws, wid)
                    &&& plan.steps@.len() <= old(self).config_view().max_workflow_steps
                    &&& ws == (if has_workflow(old(self).workflows_view(), wid) {
                        old(self).workflows_view().update(
                            workflow_index(old(self).workflows_view(), wid),
                            st,
                        )
                    } else {
                        old(self).workflows_view().push(st)
                    })
                    &&& st.workflow_id == wid
                    &&& st.agent_id == plan.name
                    &&& st.requesting_node == old(self).node_view()
                    &&& st.status == WorkflowStatus::Running
                    &&& st.parallel_steps_active == 0
                    &&& st.total_steps == plan.steps@.len()
                    &&& st.completed_steps == 0
                    &&& st.checkpoint is None
                    &&& exists|built: ExecutionDag|
                        dag_built_from(built, *plan, wid, built.ids()) && acyclic(
                            built.ids(),
                            built.edges@,
                        ) && st.dag.workflow_id == built.workflow_id && st.dag.edges@
                            == built.edges@ && st.dag.root_steps@ == built.root_steps@
                            && roots_marked_ready(built.steps@, st.dag.steps@, built.root_steps@)
                    &&& final(self).events_view() == old(self).events_view().push(
                        WorkflowEvent::WorkflowStarted { workflow_id: wid, total_steps: st.total_steps },
                    )
                },
                Err(OrchestratorError::DagBuildFailed(m)) => {
                    &&& final(self).workflows_view() == old(self).workflows_view()
                    &&& final(self).events_view() == old(self).events_view()
                    &&& (plan.steps@.len() > 0 && plan_dep_error(plan.steps@, 0) is None ==> (
                    (m@ == dag_build_error_text(DagBuildError::CycleDetected) && exists|ids: Seq<u128>|
                        ids.len() == plan.steps@.len() && ids.no_duplicates() && !#[trigger] acyclic(
                            ids,
                            plan_edges(plan.steps@, ids, plan.steps@.len() as int),
                        )) || (
                    plan.steps@.len() > old(self).config_view().max_workflow_steps && m@
                        == too_many_steps_text(
                        plan.steps@.len(),
                        old(self).config_view().max_workflow_steps as nat,
                    ))))
                },
                Err(_) => false,
            },
    {
        let mut dag = match build_execution_dag(plan) {
            Ok(d) => d,
            Err(e) => {
                return Err(OrchestratorError::DagBuildFailed(e.to_text()));
            },
        };
        let ghost built = dag;
        let n = dag.steps.len();
        if n > self.config.max_workflow_steps as usize {
            let mut m: Vec<char> = Vec::new();
            push_str(&mut m, "Workflow has ");
            push_decimal(&mut m, n as u64);
            push_str(&mut m, " steps, exceeding maximum of ");
            push_decimal(&mut m, self.config.max_workflow_steps as u64);
            return Err(OrchestratorError::DagBuildFailed(string_from_chars(&m)));
        }
        let workflow_id = dag.workflow_id;
        // mark the root steps ready
        let mut i: usize = 0;
        while i < n
            invariant
                n == built.steps@.len(),
                i <= n,
                dag.workflow_id == built.workflow_id,
                dag.edges@ == built.edges@,
                dag.root_steps@ == built.root_steps@,
                dag.steps@.len() == n,
                forall|j: int|
                    #![trigger dag.steps@[j]]
                    0 <= j < n ==> dag.steps@[j] == (ExecutionStep {
                        status: if j < i && built.root_steps@.contains(built.steps@[j].step_id) {
                            StepStatus::Ready
                        } else {
                            built.steps@[j].status
                        },
                        ..built.steps@[j]
                    }),
            decreases n - i,
        {
            let id = dag.steps[i].step_id;
            if contains_id(&dag.root_steps, id) {
                dag.steps[i].status = StepStatus::Ready;
            }
            i = i + 1;
        }
        proof {
            assert(step_ids(dag.steps@) =~= step_ids(built.steps@)) by {
                assert forall|j: int| 0 <= j < n implies step_ids(dag.steps@)[j] == step_ids(
                    built.steps@,
                )[j] by {
                    assert(dag.steps@[j].step_id == built.steps@[j].step_id);
                }
            }
            assert(roots_marked_ready(built.steps@, dag.steps@, built.root_steps@));
        }
        let total_steps = n as u32;
        let state = WorkflowState {
            workflow_id,
            agent_id: plan.name.clone(),
            requesting_node: self.local_node_id,
            dag,
            started_at_ms: now_unix_millis(),
            status: WorkflowStatus::Running,
            parallel_steps_active: 0,
            total_steps,
            completed_steps: 0,
            checkpoint: None,
        };
        let ghost old_ws = self.workflows@;
        match self.find(workflow_id) {
            Some(k) => {
                self.workflows.set(k, state);
                proof {
                    assert(workflow_ids(self.workflows@) =~= workflow_ids(old_ws));
                    assert(self.workflows@[k as int].workflow_id == workflow_id);
                    assert(workflow_index(self.workflows@, workflow_id) == k) by {
                        let q = workflow_index(self.workflows@, workflow_id);
                        assert(self.workflows@[q].workflow_id == workflow_id);
                        if q != k {
                            assert(workflow_ids(self.workflows@)[q] == workflow_ids(self.workflows@)[k as int]);
                        }
                    }
                }
            },
            None => {
                self.workflows.push(state);
                proof {
                    let ws = self.workflows@;
                    assert(workflow_ids(ws) =~= workflow_ids(old_ws).push(workflow_id));
                    assert(ws[old_ws.len() as int].workflow_id == workflow_id);
                    assert(workflow_index(ws, workflow_id) == old_ws.len()) by {
                        let q = workflow_index(ws, workflow_id);
                        assert(ws[q].workflow_id == workflow_id);
                        if q < old_ws.len() {
                            assert(old_ws[q].workflow_id == workflow_id);
                        }
                    }
                }
            },
        }
        self.events.push(WorkflowEvent::WorkflowStarted { workflow_id, total_steps });
        Ok(workflow_id)
    }

    /// Cancels a workflow: every step that has not finished is cancelled, the
    /// workflow fails with the cancellation reason and `WorkflowFailed` is
    /// emitted.
    pub fn cancel_workflow(&mut self, workflow_id: u128) -> (r: Result<(), OrchestratorError>)
        requires
            old(self).wf(),
        ensures
            final(self).wf(),
            final(self).node_view() == old(self).node_view(),
            final(self).config_view() == old(self).config_view(),
            !has_workflow(old(self).workflows_view(), workflow_id) ==> r == Err::<(), OrchestratorError>(
                OrchestratorError::WorkflowNotFound(workflow_id),
            ),
            has_workflow(old(self).workflows_view(), workflow_id) ==> {
                let k = workflow_index(old(self).workflows_view(), workflow_id);
                let before = old(self).workflows_view()[k];
                if is_terminal(before.status) {
                    r == Err::<(), OrchestratorError>(OrchestratorError::WorkflowAlreadyComplete)
                } else {
                    let after = final(self).workflows_view()[k];
                    &&& r is Ok
                    &&& final(self).workflows_view() == old(self).workflows_view().update(k, after)
                    &&& unfinished_cancelled(before.dag.steps@, after.dag.steps@)
                    &&& after.status matches WorkflowStatus::Failed { failed_step, reason }
                        && failed_step == 0 && reason@ == cancel_reason()
                    &&& after.parallel_steps_active == 0
                    &&& after == (WorkflowState {
                        dag: after.dag,
                        status: after.status,
                        parallel_steps_active: 0,
                        ..before
                    })
                    &&& after.dag.edges@ == before.dag.edges@
                    &&& after.dag.root_steps@ == before.dag.root_steps@
                    &&& after.dag.workflow_id == before.dag.workflow_id
                    &&& final(self).events_view().len() == old(self).events_view().len() + 1
                    &&& final(self).events_view().drop_last() == old(self).events_view()
                    &&& final(self).events_view().last() matches WorkflowEvent::WorkflowFailed {
                        workflow_id: w,
                        reason,
                    } && w == workflow_id && reason@ == cancel_reason()
                }
            },
            r is Err ==> final(self).workflows_view() == old(self).workflows_view()
                && final(self).events_view() == old(self).events_view(),
    {
        let k = match self.find(workflow_id) {
            Some(k) => k,
            None => {
                return Err(OrchestratorError::WorkflowNotFound(workflow_id));
            },
        };
        let terminal = match self.workflows[k].status {
            WorkflowStatus::Completed => true,
            WorkflowStatus::Failed { .. } => true,
            _ => false,
        };
        if terminal {
            return Err(OrchestratorError::WorkflowAlreadyComplete);
        }
        let ghost old_ws = self.workflows@;
        let ghost before = self.workflows@[k as int];
        let mut state = self.workflows.remove(k);
        let n = state.dag.steps.len();
        let mut i: usize = 0;
        while i < n
            invariant
                n == before.dag.steps@.len(),
                i <= n,
                state == (WorkflowState { dag: state.dag, ..before }),
                state.dag == (ExecutionDag { steps: state.dag.steps, ..before.dag }),
                state.dag.steps@.len() == n,
                forall|j: int|
                    #![trigger state.dag.steps@[j]]
                    0 <= j < n ==> state.dag.steps@[j] == (ExecutionStep {
                        status: if j < i && (before.dag.steps@[j].status is Pending
                            || before.dag.steps@[j].status is Ready
                            || before.dag.steps@[j].status is Dispatched
                            || before.dag.steps@[j].status is Running) {
                            StepStatus::Cancelled
                        } else {
                            before.dag.steps@[j].status
                        },
                        ..before.dag.steps@[j]
                    }),
            decreases n - i,
        {
            let unfinished = match state.dag.steps[i].status {
                StepStatus::Pending => true,
                StepStatus::Ready => true,
                StepStatus::Dispatched => true,
                StepStatus::Running => true,
                _ => false,
            };
            if unfinished {
                state.dag.steps[i].status = StepStatus::Cancelled;
            }
            i = i + 1;
        }
        let reason = string_from_chars(&crate::text::chars_of("Workflow cancelled by user"));
        state.status = WorkflowStatus::Failed { failed_step: 0, reason };
        state.parallel_steps_active = 0;
        proof {
            assert(step_ids(state.dag.steps@) =~= step_ids(before.dag.steps@)) by {
                assert forall|j: int| 0 <= j < n implies step_ids(state.dag.steps@)[j] == step_ids(
                    before.dag.steps@,
                )[j] by {
                    assert(state.dag.steps@[j].step_id == before.dag.steps@[j].step_id);
                }
            }
        }
        self.workflows.insert(k, state);
        proof {
            assert(self.workflows@ =~= old_ws.update(k as int, self.workflows@[k as int]));
            assert(workflow_ids(self.workflows@) =~= workflow_ids(old_ws));
            assert(forall|i: int|
                0 <= i < self.workflows@.len() && i != k ==> self.workflows@[i] == old_ws[i]);
        }
        let reason2 = string_from_chars(&crate::text::chars_of("Workflow cancelled by user"));
        self.events.push(WorkflowEvent::WorkflowFailed { workflow_id, reason: reason2 });
        Ok(())
    }

    /// The state of a workflow, if it exists.
    pub fn get_workflow_status(&self, workflow_id: u128) -> (r: Option<&WorkflowState>)
        requires
            self.wf(),
        ensures
            match r {
                Some(s) => has_workflow(self.workflows_view(), workflow_id) && *s
                    == self.workflows_view()[workflow_index(self.workflows_view(), workflow_id)],
                None => !has_workflow(self.workflows_view(), workflow_id),
            },
    {
        match self.find(workflow_id) {
            Some(k) => Some(&self.workflows[k]),
            None => None,
        }
    }

    /// The IDs of the running or paused workflows, in order.
    pub fn list_active_workflows(&self) -> (r: Vec<u128>)
        ensures
            r@ == workflow_ids(self.workflows_view().filter(|w: WorkflowState| is_active(w.status))),
    {
        let mut r: Vec<u128> = Vec::new();
        let mut i: usize = 0;
        let ghost ws = self.workflows@;
        while i < self.workflows.len()
            invariant
                ws == self.workflows@,
                i <= ws.len(),
                r@ == workflow_ids(ws.take(i as int).filter(|w: WorkflowState| is_active(w.status))),
            decreases ws.len() - i,
        {
            let active = match self.workflows[i].status {
                WorkflowStatus::Running => true,
                WorkflowStatus::Paused => true,
                _ => false,
            };
            proof {
                assert(ws.take(i + 1).drop_last() =~= ws.take(i as int));
                reveal_with_fuel(Seq::filter, 1);
            }
            if active {
                r.push(self.workflows[i].workflow_id);
            }
            proof {
                let f = ws.take(i as int).filter(|w: WorkflowState| is_active(w.status));
                let g = ws.take(i + 1).filter(|w: WorkflowState| is_active(w.status));
                if active {
                    assert(g =~= f.push(ws[i as int]));
                    assert(workflow_ids(g) =~= workflow_ids(f).push(ws[i as int].workflow_id));
                } else {
                    assert(g =~= f);
                }
            }
            i = i + 1;
        }
        assert(ws.take(ws.len() as int) =~= ws);
        r
    }

    /// Progress of a workflow: step counts by status, the remaining-time
    /// estimate and the workflow status; `None` for an unknown workflow.
    pub fn get_workflow_progress(&self, workflow_id: u128) -> (r: Option<WorkflowProgress>)
        requires
            self.wf(),
            has_workflow(self.workflows_view(), workflow_id) ==> progress_counts(
                self.workflows_view()[workflow_index(
                    self.workflows_view(),
                    workflow_id,
                )].dag.steps@,
            ).5 <= u64::MAX,
        ensures
            !has_workflow(self.workflows_view(), workflow_id) ==> r is None,
            has_workflow(self.workflows_view(), workflow_id) ==> {
                let st = self.workflows_view()[workflow_index(self.workflows_view(), workflow_id)];
                let c = progress_counts(st.dag.steps@);
                r == Some(
                    WorkflowProgress {
                        workflow_id,
                        total_steps: st.total_steps,
                        completed_steps: c.0 as u32,
                        running_steps: c.1 as u32,
                        waiting_steps: c.2 as u32,
                        failed_steps: c.3 as u32,
                        cancelled_steps: c.4 as u32,
                        estimated_remaining_ms: c.5 as u64,
                        status: st.status,
                    },
                )
            },
    {
        let k = match self.find(workflow_id) {
            Some(k) => k,
            None => {
                return None;
            },
        };
        let state = &self.workflows[k];
        let steps = &state.dag.steps;
        let mut completed: u32 = 0;
        let mut running: u32 = 0;
        let mut waiting: u32 = 0;
        let mut failed: u32 = 0;
        let mut cancelled: u32 = 0;
        let mut remaining: u64 = 0;
        let mut i: usize = 0;
        proof {
            assert(workflow_wf(self.workflows@[k as int]));
            lemma_progress_bound(steps@);
        }
        while i < steps.len()
            invariant
                i <= steps@.len(),
                steps@.len() <= u32::MAX,
                progress_counts(steps@).5 <= u64::MAX,
                (completed as nat, running as nat, waiting as nat, failed as nat, cancelled as nat, remaining as nat)
                    == progress_counts(steps@.take(i as int)),
            decreases steps.len() - i,
        {
            proof {
                assert(steps@.take(i + 1).drop_last() =~= steps@.take(i as int));
                lemma_progress_bound(steps@.take(i + 1));
                lemma_progress_prefix(steps@, i + 1);
            }
            let est = steps[i].estimated_compute_ms;
            match steps[i].status {
                StepStatus::Completed => {
                    completed = completed + 1;
                },
                StepStatus::Dispatched | StepStatus::Running => {
                    running = running + 1;
                    remaining = remaining + est / 2;
                },
                StepStatus::Pending | StepStatus::Ready => {
                    waiting = waiting + 1;
                    remaining = remaining + est;
                },
                StepStatus::Failed { .. } => {
                    failed = failed + 1;
                },
                StepStatus::Cancelled => {
                    cancelled = cancelled + 1;
                },
            }
            i = i + 1;
        }
        assert(steps@.take(steps@.len() as int) =~= steps@);
        Some(
            WorkflowProgress {
                workflow_id,
                total_steps: state.total_steps,
                completed_steps: completed,
                running_steps: running,
                waiting_steps: waiting,
                failed_steps: failed,
                cancelled_steps: cancelled,
                estimated_remaining_ms: remaining,
                status: copy_status(&state.status),
            },
        )
    }

    /// Records that a step started: one more step is active and
    /// `StepStarted` is emitted with the step's description and node (empty
    /// and `None` for a step the DAG does not hold).
    pub fn notify_step_started(&mut self, workflow_id: u128, step_id: u128) -> (r: Result<
        (),
        OrchestratorError,
    >)
        requires
            old(self).wf(),
            has_workflow(old(self).workflows_view(), workflow_id) ==> old(self).workflows_view()[workflow_index(
                old(self).workflows_view(),
                workflow_id,
            )].parallel_steps_active < u32::MAX,
        ensures
            final(self).wf(),
            final(self).node_view() == old(self).node_view(),
            final(self).config_view() == old(self).config_view(),
            !has_workflow(old(self).workflows_view(), workflow_id) ==> r == Err::<(), OrchestratorError>(
                OrchestratorError::WorkflowNotFound(workflow_id),
            ) && final(self).workflows_view() == old(self).workflows_view() && final(self).events_view() == old(self).events_view(),
            has_workflow(old(self).workflows_view(), workflow_id) ==> {
                let k = workflow_index(old(self).workflows_view(), workflow_id);
                let before = old(self).workflows_view()[k];
                let steps = before.dag.steps@;
                &&& r is Ok
                &&& final(self).workflows_view() == old(self).workflows_view().update(
                    k,
                    WorkflowState {
                        parallel_steps_active: (before.parallel_steps_active + 1) as u32,
                        ..before
                    },
                )
                &&& final(self).events_view().len() == old(self).events_view().len() + 1
                &&& final(self).events_view().drop_last() == old(self).events_view()
                &&& final(self).events_view().last() matches WorkflowEvent::StepStarted {
                    workflow_id: w,
                    step_id: s,
                    description,
                    assigned_node,
                } && w == workflow_id && s == step_id && (if step_ids(steps).contains(step_id) {
                    let x = choose|x: int| 0 <= x < steps.len() && steps[x].step_id == step_id;
                    description == steps[x].description && assigned_node == steps[x].assigned_node
                } else {
                    description@ == Seq::<char>::empty() && assigned_node is None
                })
            },
    {
        let k = match self.find(workflow_id) {
            Some(k) => k,
            None => {
                return Err(OrchestratorError::WorkflowNotFound(workflow_id));
            },
        };
        let ghost old_ws = self.workflows@;
        let ghost before = self.workflows@[k as int];
        let ids = collect_step_ids(&self.workflows[k].dag.steps);
        let (description, assigned_node) = match index_of_id(&ids, step_id) {
            Some(x) => {
                proof {
                    let steps = before.dag.steps@;
                    assert(workflow_wf(before));
                    let y = choose|y: int| 0 <= y < steps.len() && steps[y].step_id == step_id;
                    assert(step_ids(steps)[y] == step_id);
                    assert(step_ids(steps)[x as int] == step_id);
                }
                (
                    self.workflows[k].dag.steps[x].description.clone(),
                    self.workflows[k].dag.steps[x].assigned_node,
                )
            },
            None => (String::new(), None),
        };
        let mut state = self.workflows.remove(k);
        state.parallel_steps_active = state.parallel_steps_active + 1;
        self.workflows.insert(k, state);
        proof {
            assert(self.workflows@ =~= old_ws.update(k as int, self.workflows@[k as int]));
            assert(workflow_ids(self.workflows@) =~= workflow_ids(old_ws));
        }
        self.events.push(WorkflowEvent::StepStarted { workflow_id, step_id, description, assigned_node });
        Ok(())
    }

    /// Records that a step completed: the completed count grows, one step
    /// fewer is active, and when every step is completed or cancelled the
    /// workflow completes (`WorkflowCompleted` is emitted first);
    /// `StepCompleted` is emitted last.
    pub fn notify_step_completed(
        &mut self,
        workflow_id: u128,
        step_id: u128,
        compute_time_ms: u64,
    ) -> (r: Result<(), OrchestratorError>)
        requires
            old(self).wf(),
            has_workflow(old(self).workflows_view(), workflow_id) ==> old(self).workflows_view()[workflow_index(
                old(self).workflows_view(),
                workflow_id,
            )].completed_steps < u32::MAX,
        ensures
            final(self).wf(),
            final(self).node_view() == old(self).node_view(),
            final(self).config_view() == old(self).config_view(),
            !has_workflow(old(self).workflows_view(), workflow_id) ==> r == Err::<(), OrchestratorError>(
                OrchestratorError::WorkflowNotFound(workflow_id),
            ) && final(self).workflows_view() == old(self).workflows_view() && final(self).events_view() == old(self).events_view(),
            has_workflow(old(self).workflows_view(), workflow_id) ==> {
                let k = workflow_index(old(self).workflows_view(), workflow_id);
                let before = old(self).workflows_view()[k];
                let done = all_finished(before.dag.steps@);
                let completed_event = WorkflowEvent::StepCompleted {
                    workflow_id,
                    step_id,
                    compute_time_ms,
                };
                &&& r is Ok
                &&& final(self).workflows_view() == old(self).workflows_view().update(
                    k,
                    WorkflowState {
                        completed_steps: (before.completed_steps + 1) as u32,
                        parallel_steps_active: if before.parallel_steps_active > 0 {
                            (before.parallel_steps_active - 1) as u32
                        } else {
                            0
                        },
                        status: if done {
                            WorkflowStatus::Completed
                        } else {
                            before.status
                        },
                        ..before
                    },
                )
                &&& final(self).events_view() == (if done {
                    old(self).events_view().push(
                        WorkflowEvent::WorkflowCompleted { workflow_id },
                    ).push(completed_event)
                } else {
                    old(self).events_view().push(completed_event)
                })
            },
    {
        let k = match self.find(workflow_id) {
            Some(k) => k,
            None => {
                return Err(OrchestratorError::WorkflowNotFound(workflow_id));
            },
        };
        let ghost old_ws = self.workflows@;
        let mut state = self.workflows.remove(k);
        state.completed_steps = state.completed_steps + 1;
        if state.parallel_steps_active > 0 {
            state.parallel_steps_active = state.parallel_steps_active - 1;
        }
        let done = steps_all_finished(&state.dag.steps);
        if done {
            state.status = WorkflowStatus::Completed;
        }
        self.workflows.insert(k, state);
        proof {
            assert(self.workflows@ =~= old_ws.update(k as int, self.workflows@[k as int]));
            assert(workflow_ids(self.workflows@) =~= workflow_ids(old_ws));
        }
        if done {
            self.events.push(WorkflowEvent::WorkflowCompleted { workflow_id });
        }
        self.events.push(WorkflowEvent::StepCompleted { workflow_id, step_id, compute_time_ms });
        Ok(())
    }

    /// Records that a step failed: one step fewer is active and `StepFailed`
    /// is emitted with the reason.
    pub fn notify_step_failed(&mut self, workflow_id: u128, step_id: u128, reason: String) -> (r:
        Result<(), OrchestratorError>)
        requires
            old(self).wf(),
        ensures
            final(self).wf(),
            final(self).node_view() == old(self).node_view(),
            final(self).config_view() == old(self).config_view(),
            !has_workflow(old(self).workflows_view(), workflow_id) ==> r == Err::<(), OrchestratorError>(
                OrchestratorError::WorkflowNotFound(workflow_id),
            ) && final(self).workflows_view() == old(self).workflows_view() && final(self).events_view() == old(self).events_view(),
            has_workflow(old(self).workflows_view(), workflow_id) ==> {
                let k = workflow_index(old(self).workflows_view(), workflow_id);
                let before = old(self).workflows_view()[k];
                &&& r is Ok
                &&& final(self).workflows_view() == old(self).workflows_view().update(
                    k,
                    WorkflowState {
                        parallel_steps_active: if before.parallel_steps_active > 0 {
                            (before.parallel_steps_active - 1) as u32
                        } else {
                            0
                        },
                        ..before
                    },
                )
                &&& final(self).events_view() == old(self).events_view().push(
                    WorkflowEvent::StepFailed { workflow_id, step_id, reason },
                )
            },
    {
        let k = match self.find(workflow_id) {
            Some(k) => k,
            None => {
                return Err(OrchestratorError::WorkflowNotFound(workflow_id));
            },
        };
        let ghost old_ws = self.workflows@;
        let mut state = self.workflows.remove(k);
        if state.parallel_steps_active > 0 {
            state.parallel_steps_active = state.parallel_steps_active - 1;
        }
        self.workflows.insert(k, state);
        proof {
            assert(self.workflows@ =~= old_ws.update(k as int, self.workflows@[k as int]));
            assert(workflow_ids(self.workflows@) =~= workflow_ids(old_ws));
        }
        self.events.push(WorkflowEvent::StepFailed { workflow_id, step_id, reason });
        Ok(())
    }

    /// Adds a step to a running workflow. Its dependencies must be steps of
    /// the DAG; it gets a fresh ID, an edge from each dependency, the
    /// sensitivity of a sensitive dependency, and is ready at once when every
    /// dependency has completed. A DAG that already has a cycle takes no new
    /// step. `StepAdded` is emitted.
    pub fn add_step(&mut self, workflow_id: u128, step: AgentPlanStep, depends_on: Vec<u128>) -> (r:
        Result<u128, OrchestratorError>)
        requires
            old(self).wf(),
            has_workflow(old(self).workflows_view(), workflow_id) ==> old(self).workflows_view()[workflow_index(
                old(self).workflows_view(),
                workflow_id,
            )].total_steps < u32::MAX,
        ensures
            final(self).wf(),
            final(self).node_view() == old(self).node_view(),
            final(self).config_view() == old(self).config_view(),
            r is Err ==> final(self).workflows_view() == old(self).workflows_view() && final(self).events_view() == old(self).events_view(),
            !has_workflow(old(self).workflows_view(), workflow_id) ==> r == Err::<u128, OrchestratorError>(
                OrchestratorError::WorkflowNotFound(workflow_id),
            ),
            has_workflow(old(self).workflows_view(), workflow_id) ==> {
                let k = workflow_index(old(self).workflows_view(), workflow_id);
                let before = old(self).workflows_view()[k];
                let ids = step_ids(before.dag.steps@);
                let edges = before.dag.edges@;
                let deps = depends_on@;
                if is_terminal(before.status) {
                    r == Err::<u128, OrchestratorError>(OrchestratorError::WorkflowAlreadyComplete)
                } else if exists|j: int| 0 <= j < deps.len() && !ids.contains(#[trigger] deps[j]) {
                    exists|j: int|
                        0 <= j < deps.len() && !ids.contains(#[trigger] deps[j]) && (forall|i: int|
                            0 <= i < j ==> ids.contains(#[trigger] deps[i])) && (r matches Err(
                            OrchestratorError::DagBuildFailed(m),
                        ) && m@ == missing_dependency_text(deps[j]))
                } else {
                    match r {
                        Err(e) => e == OrchestratorError::CycleDetected && !acyclic(ids, edges),
                        Ok(nid) => {
                            let after = final(self).workflows_view()[k];
                            let st = after.dag.steps@.last();
                            let new_edges = deps.map_values(|d: u128| (d, nid));
                            &&& !ids.contains(nid)
                            &&& !edge_endpoints(edges).contains(nid)
                            &&& final(self).workflows_view() == old(self).workflows_view().update(
                                k,
                                after,
                            )
                            &&& after == (WorkflowState {
                                dag: after.dag,
                                total_steps: (before.total_steps + 1) as u32,
                                ..before
                            })
                            &&& after.dag.workflow_id == before.dag.workflow_id
                            &&& after.dag.steps@ == before.dag.steps@.push(st)
                            &&& after.dag.edges@ == edges + new_edges
                            &&& after.dag.root_steps@ == (if deps.len() == 0 {
                                before.dag.root_steps@.push(nid)
                            } else {
                                before.dag.root_steps@
                            })
                            &&& added_step(st, step, nid, deps)
                            &&& st.sensitivity == (if exists|j: int|
                                0 <= j < deps.len() && sensitive_ids(before.dag.steps@).contains(
                                    #[trigger] deps[j],
                                ) {
                                PromptSensitivity::Sensitive
                            } else {
                                hinted_sensitivity(step)
                            })
                            &&& st.status == (if forall|j: int|
                                0 <= j < deps.len() ==> completed_ids(before.dag.steps@).contains(
                                    #[trigger] deps[j],
                                ) {
                                StepStatus::Ready
                            } else {
                                StepStatus::Pending
                            })
                            &&& acyclic(ids.push(nid), edges + new_edges)
                            &&& final(self).events_view() == old(self).events_view().push(
                                WorkflowEvent::StepAdded {
                                    workflow_id,
                                    step_id: nid,
                                    description: step.description,
                                },
                            )
                        },
                    }
                }
            },
    {
        let k = match self.find(workflow_id) {
            Some(k) => k,
            None => {
                return Err(OrchestratorError::WorkflowNotFound(workflow_id));
            },
        };
        let terminal = match self.workflows[k].status {
            WorkflowStatus::Completed => true,
            WorkflowStatus::Failed { .. } => true,
            _ => false,
        };
        if terminal {
            return Err(OrchestratorError::WorkflowAlreadyComplete);
        }
        let ghost old_ws = self.workflows@;
        let ghost before = self.workflows@[k as int];
        proof {
            assert(workflow_wf(before));
        }
        let ids = collect_step_ids(&self.workflows[k].dag.steps);
        // every dependency must be a step
        let mut j: usize = 0;
        while j < depends_on.len()
            invariant
                j <= depends_on@.len(),
                forall|i: int| 0 <= i < j ==> ids@.contains(#[trigger] depends_on@[i]),
                old(self).wf(),
                *self == *old(self),
                has_workflow(old(self).workflows_view(), workflow_id),
                k == workflow_index(old(self).workflows_view(), workflow_id),
                old_ws == old(self).workflows_view(),
                before == old_ws[k as int],
                !is_terminal(before.status),
                ids@ == step_ids(before.dag.steps@),
            decreases depends_on.len() - j,
        {
            if !contains_id(&ids, depends_on[j]) {
                let mut m: Vec<char> = Vec::new();
                push_str(&mut m, "Dependency step ");
                push_str(&mut m, uuid_string(depends_on[j]).as_str());
                push_str(&mut m, " does not exist in the DAG");
                return Err(OrchestratorError::DagBuildFailed(string_from_chars(&m)));
            }
            j = j + 1;
        }
        // a fresh ID: neither a step nor an endpoint of an edge
        let mut avoid = ids.clone();
        let mut e: usize = 0;
        let edges_len = self.workflows[k].dag.edges.len();
        while e < edges_len
            invariant
                edges_len == before.dag.edges@.len(),
                k < self.workflows@.len(),
                self.workflows@ == old_ws,
                old_ws[k as int] == before,
                e <= edges_len,
                forall|x: u128| ids@.contains(x) ==> avoid@.contains(x),
                forall|f: int|
                    0 <= f < e ==> avoid@.contains(#[trigger] before.dag.edges@[f].0) && avoid@.contains(
                        before.dag.edges@[f].1,
                    ),
            decreases edges_len - e,
        {
            let ghost pre = avoid@;
            avoid.push(self.workflows[k].dag.edges[e].0);
            avoid.push(self.workflows[k].dag.edges[e].1);
            proof {
                assert forall|x: u128| pre.contains(x) implies avoid@.contains(x) by {
                    let q = choose|q: int| 0 <= q < pre.len() && pre[q] == x;
                    assert(avoid@[q] == x);
                }
                assert(avoid@[pre.len() as int] == before.dag.edges@[e as int].0);
                assert(avoid@[pre.len() as int + 1] == before.dag.edges@[e as int].1);
                assert(avoid@.contains(before.dag.edges@[e as int].0));
                assert(avoid@.contains(before.dag.edges@[e as int].1));
                assert forall|f: int| 0 <= f < e + 1 implies avoid@.contains(
                    #[trigger] before.dag.edges@[f].0,
                ) && avoid@.contains(before.dag.edges@[f].1) by {
                    if f < e {
                        assert(pre.contains(before.dag.edges@[f].0));
                        assert(pre.contains(before.dag.edges@[f].1));
                    }
                }
            }
            e = e + 1;
        }
        let nid = fresh_id_avoiding(&avoid);
        proof {
            assert(!ids@.contains(nid));
            assert(!edge_endpoints(before.dag.edges@).contains(nid)) by {
                if edge_endpoints(before.dag.edges@).contains(nid) {
                    let f = choose|f: int|
                        #![trigger before.dag.edges@[f]]
                        0 <= f < before.dag.edges@.len() && (before.dag.edges@[f].0 == nid
                            || before.dag.edges@[f].1 == nid);
                    assert(avoid@.contains(before.dag.edges@[f].0));
                }
            }
        }
        // the new edges, and the graph with the new step
        let mut new_edges: Vec<(u128, u128)> = Vec::new();
        let mut j: usize = 0;
        while j < depends_on.len()
            invariant
                j <= depends_on@.len(),
                new_edges@ == depends_on@.take(j as int).map_values(|d: u128| (d, nid)),
            decreases depends_on.len() - j,
        {
            new_edges.push((depends_on[j], nid));
            j = j + 1;
            assert(depends_on@.take(j as int).map_values(|d: u128| (d, nid)) =~= depends_on@.take(
                j - 1,
            ).map_values(|d: u128| (d, nid)).push((depends_on@[j - 1], nid)));
        }
        assert(depends_on@.take(depends_on@.len() as int) =~= depends_on@);
        let mut all_edges: Vec<(u128, u128)> = Vec::new();
        let mut j: usize = 0;
        while j < edges_len
            invariant
                edges_len == before.dag.edges@.len(),
                k < self.workflows@.len(),
                self.workflows@ == old_ws,
                old_ws[k as int] == before,
                j <= edges_len,
                all_edges@ == before.dag.edges@.take(j as int),
            decreases edges_len - j,
        {
            all_edges.push(self.workflows[k].dag.edges[j]);
            j = j + 1;
            assert(before.dag.edges@.take(j as int) =~= before.dag.edges@.take(j - 1).push(
                before.dag.edges@[j - 1],
            ));
        }
        assert(before.dag.edges@.take(edges_len as int) =~= before.dag.edges@);
        let mut j: usize = 0;
        while j < new_edges.len()
            invariant
                j <= new_edges@.len(),
                all_edges@ == before.dag.edges@ + new_edges@.take(j as int),
            decreases new_edges.len() - j,
        {
            all_edges.push(new_edges[j]);
            j = j + 1;
            assert(new_edges@.take(j as int) =~= new_edges@.take(j - 1).push(new_edges@[j - 1]));
        }
        assert(new_edges@.take(new_edges@.len() as int) =~= new_edges@);
        let mut all_ids = ids.clone();
        all_ids.push(nid);
        proof {
            assert(all_ids@ =~= ids@.push(nid));
            assert(all_ids@.no_duplicates()) by {
                assert forall|a: int, b: int|
                    0 <= a < all_ids@.len() && 0 <= b < all_ids@.len() && a != b implies all_ids@[a]
                    != all_ids@[b] by {
                    if a == ids@.len() {
                        assert(ids@.contains(all_ids@[b]) ==> all_ids@[b] != nid);
                        assert(ids@[b] == all_ids@[b]);
                    } else if b == ids@.len() {
                        assert(ids@[a] == all_ids@[a]);
                    }
                }
            }
        }
        match topological_order(&all_ids, &all_edges) {
            None => {
                proof {
                    if acyclic(ids@, before.dag.edges@) {
                        lemma_sink_keeps_acyclic(ids@, before.dag.edges@, depends_on@, nid);
                    }
                }
                return Err(OrchestratorError::CycleDetected);
            },
            Some(o) => {
                assert(is_topological_order(all_ids@, all_edges@, o@));
            },
        }
        // sensitivity and readiness from the dependencies
        let mut any_sensitive = false;
        let mut all_complete = true;
        let mut j: usize = 0;
        while j < depends_on.len()
            invariant
                j <= depends_on@.len(),
                k < self.workflows@.len(),
                self.workflows@ == old_ws,
                old_ws[k as int] == before,
                ids@ == step_ids(before.dag.steps@),
                ids@.no_duplicates(),
                forall|i: int| 0 <= i < depends_on@.len() ==> ids@.contains(#[trigger] depends_on@[i]),
                any_sensitive == exists|i: int|
                    0 <= i < j && sensitive_ids(before.dag.steps@).contains(#[trigger] depends_on@[i]),
                all_complete == forall|i: int|
                    0 <= i < j ==> completed_ids(before.dag.steps@).contains(#[trigger] depends_on@[i]),
            decreases depends_on.len() - j,
        {
            let d = depends_on[j];
            match index_of_id(&ids, d) {
                Some(x) => {
                    let sens = match self.workflows[k].dag.steps[x].sensitivity {
                        PromptSensitivity::Sensitive => true,
                        PromptSensitivity::NonSensitive => false,
                    };
                    let comp = match self.workflows[k].dag.steps[x].status {
                        StepStatus::Completed => true,
                        _ => false,
                    };
                    proof {
                        let steps = before.dag.steps@;
                        assert(step_ids(steps)[x as int] == d);
                        assert(steps[x as int].step_id == d);
                        assert(sensitive_ids(steps).contains(d) == sens) by {
                            if sensitive_ids(steps).contains(d) {
                                let y = choose|y: int|
                                    0 <= y < steps.len() && #[trigger] steps[y].step_id == d
                                        && steps[y].sensitivity == PromptSensitivity::Sensitive;
                                assert(step_ids(steps)[y] == d);
                            }
                        }
                        assert(completed_ids(steps).contains(d) == comp) by {
                            if completed_ids(steps).contains(d) {
                                let y = choose|y: int|
                                    0 <= y < steps.len() && #[trigger] steps[y].step_id == d
                                        && steps[y].status is Completed;
                                assert(step_ids(steps)[y] == d);
                            }
                        }
                    }
                    if sens {
                        any_sensitive = true;
                    }
                    if !comp {
                        all_complete = false;
                    }
                },
                None => {
                    proof {
                        assert(false);
                    }
                },
            }
            j = j + 1;
        }
        let sensitivity = if any_sensitive {
            PromptSensitivity::Sensitive
        } else {
            match step.sensitivity {
                Some(v) => v,
                None => PromptSensitivity::NonSensitive,
            }
        };
        let status = if all_complete {
            StepStatus::Ready
        } else {
            StepStatus::Pending
        };
        let estimated_compute_ms = if step.estimated_compute_ms > 0 {
            step.estimated_compute_ms
        } else {
            1000
        };
        let no_deps = depends_on.len() == 0;
        let event_description = step.description.clone();
        let new_step = ExecutionStep {
            step_id: nid,
            description: step.description,
            required_model: step.model,
            required_tools: step.tools,
            sensitivity,
            estimated_compute_ms,
            input_dependencies: depends_on,
            status,
            assigned_node: None,
            result: None,
        };
        let mut state = self.workflows.remove(k);
        state.dag.steps.push(new_step);
        state.dag.edges = all_edges;
        if no_deps {
            state.dag.root_steps.push(nid);
        }
        state.total_steps = state.total_steps + 1;
        proof {
            assert(step_ids(state.dag.steps@) =~= ids@.push(nid));
        }
        self.workflows.insert(k, state);
        proof {
            assert(self.workflows@ =~= old_ws.update(k as int, self.workflows@[k as int]));
            assert(workflow_ids(self.workflows@) =~= workflow_ids(old_ws));
        }
        self.events.push(
            WorkflowEvent::StepAdded { workflow_id, step_id: nid, description: event_description },
        );
        Ok(nid)
    }

    /// Hands out the events emitted so far and forgets them.
    pub fn drain_events(&mut self) -> (r: Vec<WorkflowEvent>)
        ensures
            r@ == old(self).events_view(),
            final(self).events_view() == Seq::<WorkflowEvent>::empty(),
            final(self).workflows_view() == old(self).workflows_view(),
            final(self).node_view() == old(self).node_view(),
            final(self).config_view() == old(self).config_view(),
            old(self).wf() ==> final(self).wf(),
    {
        let mut taken: Vec<WorkflowEvent> = Vec::new();
        std::mem::swap(&mut taken, &mut self.events);
        taken
    }
}

/// Whether every step is completed or cancelled.
pub fn steps_all_finished(steps: &Vec<ExecutionStep>) -> (r: bool)
    ensures
        r == all_finished(steps@),
{
    let mut i: usize = 0;
    while i < steps.len()
        invariant
            i <= steps@.len(),
            forall|j: int|
                0 <= j < i ==> (#[trigger] steps@[j]).status is Completed || steps@[j].status is Cancelled,
        decreases steps.len() - i,
    {
        let fin = match steps[i].status {
            StepStatus::Completed => true,
            StepStatus::Cancelled => true,
            _ => false,
        };
        if !fin {
            return false;
        }
        i = i + 1;
    }
    true
}

/// Lemma: a fresh step that only receives edges from steps keeps an acyclic
/// graph acyclic.
pub proof fn lemma_sink_keeps_acyclic(
    ids: Seq<u128>,
    edges: Seq<(u128, u128)>,
    deps: Seq<u128>,
    nid: u128,
)
    requires
        acyclic(ids, edges),
        !ids.contains(nid),
        !edge_endpoints(edges).contains(nid),
        forall|j: int| 0 <= j < deps.len() ==> ids.contains(#[trigger] deps[j]),
    ensures
        acyclic(ids.push(nid), edges + deps.map_values(|d: u128| (d, nid))),
{
    let o = choose|o: Seq<u128>| is_topological_order(ids, edges, o);
    let o2 = o.push(nid);
    let ids2 = ids.push(nid);
    let new_edges = deps.map_values(|d: u128| (d, nid));
    let edges2 = edges + new_edges;
    assert(!o.contains(nid)) by {
        if o.contains(nid) {
            let q = choose|q: int| 0 <= q < o.len() && o[q] == nid;
            assert(ids.contains(o[q]));
        }
    }
    assert(o2.no_duplicates()) by {
        assert forall|a: int, b: int| 0 <= a < o2.len() && 0 <= b < o2.len() && a != b implies o2[a]
            != o2[b] by {
            if a == o.len() {
                assert(o2[b] == o[b]);
            } else if b == o.len() {
                assert(o2[a] == o[a]);
            }
        }
    }
    assert forall|q: int| 0 <= q < o2.len() implies ids2.contains(#[trigger] o2[q]) by {
        if q < o.len() {
            assert(ids.contains(o[q]));
            let x = choose|x: int| 0 <= x < ids.len() && ids[x] == o[q];
            assert(ids2[x] == o2[q]);
        } else {
            assert(ids2[ids.len() as int] == nid);
        }
    }
    assert forall|q: int| 0 <= q < ids2.len() implies o2.contains(#[trigger] ids2[q]) by {
        if q < ids.len() {
            assert(o.contains(ids[q]));
            let x = choose|x: int| 0 <= x < o.len() && o[x] == ids[q];
            assert(o2[x] == ids2[q]);
        } else {
            assert(o2[o.len() as int] == nid);
        }
    }
    assert forall|e: int, j: int|
        #![trigger o2[j], edges2[e]]
        0 <= e < edges2.len() && 0 <= j < o2.len() && o2[j] == edges2[e].1 implies o2.take(j).contains(
        edges2[e].0,
    ) by {
        if e < edges.len() {
            assert(edges2[e] == edges[e]);
            if j == o.len() {
                assert(edge_endpoints(edges).contains(nid)) by {
                    assert(edges[e].1 == nid);
                }
            } else {
                assert(o[j] == o2[j]);
                assert(o.take(j).contains(edges[e].0));
                assert(o2.take(j) =~= o.take(j));
            }
        } else {
            let d = e - edges.len();
            assert(edges2[e] == (deps[d], nid));
            if j < o.len() {
                assert(o[j] == nid);
            }
            assert(j == o.len());
            assert(o2.take(j) =~= o);
            assert(ids.contains(deps[d]));
            let x = choose|x: int| 0 <= x < ids.len() && ids[x] == deps[d];
            assert(o.contains(ids[x]));
        }
    }
    assert(is_topological_order(ids2, edges2, o2));
}

/// A copy of a workflow status.
pub fn copy_status(s: &WorkflowStatus) -> (r: WorkflowStatus)
    ensures
        r == *s,
{
    match s {
        WorkflowStatus::Running => WorkflowStatus::Running,
        WorkflowStatus::Paused => WorkflowStatus::Paused,
        WorkflowStatus::Completed => WorkflowStatus::Completed,
        WorkflowStatus::Failed { failed_step, reason } => WorkflowStatus::Failed {
            failed_step: *failed_step,
            reason: reason.clone(),
        },
    }
}

/// Lemma: every count of a step list is at most its length, and the counts
/// of a prefix do not exceed those of the whole.
pub proof fn lemma_progress_bound(steps: Seq<ExecutionStep>)
    ensures
        progress_counts(steps).0 <= steps.len(),
        progress_counts(steps).1 <= steps.len(),
        progress_counts(steps).2 <= steps.len(),
        progress_counts(steps).3 <= steps.len(),
        progress_counts(steps).4 <= steps.len(),
    decreases steps.len(),
{
    if steps.len() > 0 {
        lemma_progress_bound(steps.drop_last());
    }
}

/// Lemma: the remaining-time estimate of a prefix is at most that of the whole.
pub proof fn lemma_progress_prefix(steps: Seq<ExecutionStep>, k: int)
    requires
        0 <= k <= steps.len(),
    ensures
        progress_counts(steps.take(k)).5 <= progress_counts(steps).5,
    decreases steps.len() - k,
{
    if k < steps.len() {
        lemma_progress_prefix(steps, k + 1);
        assert(steps.take(k + 1).drop_last() =~= steps.take(k));
    } else {
        assert(steps.take(k) =~= steps);
    }
}

} // verus!
