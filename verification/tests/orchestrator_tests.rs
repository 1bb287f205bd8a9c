use resonantos_core::agents::dag::{AgentPlan, AgentPlanStep, PromptSensitivity, StepStatus};
use resonantos_core::agents::orchestrator::{OrchestratorError, WorkflowEvent, WorkflowOrchestrator};
use resonantos_core::agents::protocol::{DistributedAgentConfig, WorkflowState, WorkflowStatus};

fn test_config() -> DistributedAgentConfig {
    DistributedAgentConfig::default()
}

fn test_node_id() -> u128 {
    uuid::Uuid::new_v4().as_u128()
}

fn make_plan_step(description: &str, depends_on: Vec<usize>) -> AgentPlanStep {
    AgentPlanStep {
        description: description.to_string(),
        model: None,
        tools: Vec::new(),
        depends_on,
        sensitivity: None,
        estimated_compute_ms: 1000,
    }
}

fn make_simple_plan() -> AgentPlan {
    AgentPlan {
        name: "test-agent".to_string(),
        steps: vec![make_plan_step("Step A", vec![]), make_plan_step("Step B", vec![]), make_plan_step("Step C", vec![0, 1])],
    }
}

fn workflow_mut(o: &mut WorkflowOrchestrator, id: u128) -> &mut WorkflowState {
    o.workflows.iter_mut().find(|w| w.workflow_id == id).unwrap()
}

fn set_step_status(o: &mut WorkflowOrchestrator, wf: u128, step: u128, status: StepStatus) {
    workflow_mut(o, wf).dag.steps.iter_mut().find(|s| s.step_id == step).unwrap().status = status;
}

#[test]
fn test_start_workflow_creates_correct_state() {
    let node_id = test_node_id();
    let mut orchestrator = WorkflowOrchestrator::new(node_id, test_config());
    let workflow_id = orchestrator.start_workflow(&make_simple_plan()).unwrap();
    let state = orchestrator.get_workflow_status(workflow_id).unwrap();
    assert_eq!(state.workflow_id, workflow_id);
    assert_eq!(state.agent_id, "test-agent");
    assert_eq!(state.requesting_node, node_id);
    assert_eq!(state.status, WorkflowStatus::Running);
    assert_eq!(state.total_steps, 3);
    assert_eq!(state.completed_steps, 0);
    assert_eq!(state.parallel_steps_active, 0);
}

#[test]
fn test_start_workflow_marks_root_steps_ready() {
    let mut orchestrator = WorkflowOrchestrator::new(test_node_id(), test_config());
    let workflow_id = orchestrator.start_workflow(&make_simple_plan()).unwrap();
    let state = orchestrator.get_workflow_status(workflow_id).unwrap();
    let ready_count = state.dag.steps.iter().filter(|s| s.status == StepStatus::Ready).count();
    let pending_count = state.dag.steps.iter().filter(|s| s.status == StepStatus::Pending).count();
    assert_eq!(ready_count, 2);
    assert_eq!(pending_count, 1);
}

#[test]
fn test_start_workflow_emits_event() {
    let mut orchestrator = WorkflowOrchestrator::new(test_node_id(), test_config());
    let workflow_id = orchestrator.start_workflow(&make_simple_plan()).unwrap();
    let events = orchestrator.drain_events();
    assert_eq!(events.len(), 1);
    match &events[0] {
        WorkflowEvent::WorkflowStarted { workflow_id: wid, total_steps } => {
            assert_eq!(*wid, workflow_id);
            assert_eq!(*total_steps, 3);
        },
        _ => panic!("Expected WorkflowStarted event"),
    }
}

#[test]
fn test_start_workflow_rejects_empty_plan() {
    let mut orchestrator = WorkflowOrchestrator::new(test_node_id(), test_config());
    let plan = AgentPlan { name: "empty".to_string(), steps: Vec::new() };
    let err = orchestrator.start_workflow(&plan).unwrap_err();
    assert!(matches!(err, OrchestratorError::DagBuildFailed(_)));
}

#[test]
fn test_cancel_workflow_marks_all_steps_cancelled() {
    let mut orchestrator = WorkflowOrchestrator::new(test_node_id(), test_config());
    let workflow_id = orchestrator.start_workflow(&make_simple_plan()).unwrap();
    orchestrator.cancel_workflow(workflow_id).unwrap();
    let state = orchestrator.get_workflow_status(workflow_id).unwrap();
    for step in state.dag.steps.iter() {
        assert_eq!(step.status, StepStatus::Cancelled);
    }
    assert!(matches!(state.status, WorkflowStatus::Failed { .. }));
}

#[test]
fn test_cancel_workflow_emits_failed_event() {
    let mut orchestrator = WorkflowOrchestrator::new(test_node_id(), test_config());
    let workflow_id = orchestrator.start_workflow(&make_simple_plan()).unwrap();
    orchestrator.drain_events();
    orchestrator.cancel_workflow(workflow_id).unwrap();
    let events = orchestrator.drain_events();
    assert_eq!(events.len(), 1);
    match &events[0] {
        WorkflowEvent::WorkflowFailed { workflow_id: wid, reason } => {
            assert_eq!(*wid, workflow_id);
            assert!(reason.contains("cancelled"));
        },
        _ => panic!("Expected WorkflowFailed event"),
    }
}

#[test]
fn test_cancel_nonexistent_workflow_returns_error() {
    let mut orchestrator = WorkflowOrchestrator::new(test_node_id(), test_config());
    let fake_id = test_node_id();
    let err = orchestrator.cancel_workflow(fake_id).unwrap_err();
    assert_eq!(err, OrchestratorError::WorkflowNotFound(fake_id));
}

#[test]
fn test_cancel_already_complete_workflow_returns_error() {
    let mut orchestrator = WorkflowOrchestrator::new(test_node_id(), test_config());
    let workflow_id = orchestrator.start_workflow(&make_simple_plan()).unwrap();
    orchestrator.cancel_workflow(workflow_id).unwrap();
    let err = orchestrator.cancel_workflow(workflow_id).unwrap_err();
    assert_eq!(err, OrchestratorError::WorkflowAlreadyComplete);
}

#[test]
fn test_get_workflow_status_returns_none_for_unknown() {
    let orchestrator = WorkflowOrchestrator::new(test_node_id(), test_config());
    assert!(orchestrator.get_workflow_status(test_node_id()).is_none());
}

#[test]
fn test_list_active_workflows() {
    let mut orchestrator = WorkflowOrchestrator::new(test_node_id(), test_config());
    let plan = make_simple_plan();
    let wf1 = orchestrator.start_workflow(&plan).unwrap();
    let wf2 = orchestrator.start_workflow(&plan).unwrap();
    let active = orchestrator.list_active_workflows();
    assert_eq!(active.len(), 2);
    assert!(active.contains(&wf1));
    assert!(active.contains(&wf2));
    orchestrator.cancel_workflow(wf1).unwrap();
    let active = orchestrator.list_active_workflows();
    assert_eq!(active.len(), 1);
    assert!(active.contains(&wf2));
}

#[test]
fn test_orchestrator_node_id_always_equals_local() {
    let node_id = test_node_id();
    let mut orchestrator = WorkflowOrchestrator::new(node_id, test_config());
    let workflow_id = orchestrator.start_workflow(&make_simple_plan()).unwrap();
    let state = orchestrator.get_workflow_status(workflow_id).unwrap();
    assert_eq!(state.requesting_node, node_id);
    assert_eq!(orchestrator.local_node_id(), node_id);
}

#[test]
fn test_progress_shows_correct_counts() {
    let mut orchestrator = WorkflowOrchestrator::new(test_node_id(), test_config());
    let workflow_id = orchestrator.start_workflow(&make_simple_plan()).unwrap();
    let progress = orchestrator.get_workflow_progress(workflow_id).unwrap();
    assert_eq!(progress.total_steps, 3);
    assert_eq!(progress.completed_steps, 0);
    assert_eq!(progress.running_steps, 0);
    assert_eq!(progress.waiting_steps, 3);
    assert_eq!(progress.failed_steps, 0);
    assert_eq!(progress.cancelled_steps, 0);
    assert_eq!(progress.status, WorkflowStatus::Running);
}

#[test]
fn test_progress_after_cancellation() {
    let mut orchestrator = WorkflowOrchestrator::new(test_node_id(), test_config());
    let workflow_id = orchestrator.start_workflow(&make_simple_plan()).unwrap();
    orchestrator.cancel_workflow(workflow_id).unwrap();
    let progress = orchestrator.get_workflow_progress(workflow_id).unwrap();
    assert_eq!(progress.cancelled_steps, 3);
    assert_eq!(progress.running_steps, 0);
    assert_eq!(progress.waiting_steps, 0);
}

#[test]
fn test_progress_estimated_time() {
    let mut orchestrator = WorkflowOrchestrator::new(test_node_id(), test_config());
    let mut fast = make_plan_step("Fast step", vec![]);
    fast.estimated_compute_ms = 2000;
    let mut slow = make_plan_step("Slow step", vec![0]);
    slow.estimated_compute_ms = 5000;
    let plan = AgentPlan { name: "timed".to_string(), steps: vec![fast, slow] };
    let workflow_id = orchestrator.start_workflow(&plan).unwrap();
    let progress = orchestrator.get_workflow_progress(workflow_id).unwrap();
    assert_eq!(progress.estimated_remaining_ms, 7000);
}

#[test]
fn test_progress_returns_none_for_unknown_workflow() {
    let orchestrator = WorkflowOrchestrator::new(test_node_id(), test_config());
    assert!(orchestrator.get_workflow_progress(test_node_id()).is_none());
}

#[test]
fn test_notify_step_started_increments_active() {
    let mut orchestrator = WorkflowOrchestrator::new(test_node_id(), test_config());
    let workflow_id = orchestrator.start_workflow(&make_simple_plan()).unwrap();
    let step_id = *orchestrator.get_workflow_status(workflow_id).unwrap().dag.root_steps.first().unwrap();
    orchestrator.notify_step_started(workflow_id, step_id).unwrap();
    let state = orchestrator.get_workflow_status(workflow_id).unwrap();
    assert_eq!(state.parallel_steps_active, 1);
}

#[test]
fn test_notify_step_completed_updates_counters() {
    let mut orchestrator = WorkflowOrchestrator::new(test_node_id(), test_config());
    let plan = AgentPlan { name: "single".to_string(), steps: vec![make_plan_step("Only step", vec![])] };
    let workflow_id = orchestrator.start_workflow(&plan).unwrap();
    let step_id = *orchestrator.get_workflow_status(workflow_id).unwrap().dag.root_steps.first().unwrap();
    set_step_status(&mut orchestrator, workflow_id, step_id, StepStatus::Completed);
    orchestrator.notify_step_started(workflow_id, step_id).unwrap();
    orchestrator.notify_step_completed(workflow_id, step_id, 500).unwrap();
    let state = orchestrator.get_workflow_status(workflow_id).unwrap();
    assert_eq!(state.completed_steps, 1);
    assert_eq!(state.parallel_steps_active, 0);
    assert_eq!(state.status, WorkflowStatus::Completed);
}

#[test]
fn test_add_step_to_active_workflow() {
    let mut orchestrator = WorkflowOrchestrator::new(test_node_id(), test_config());
    let plan = AgentPlan { name: "dynamic".to_string(), steps: vec![make_plan_step("Initial step", vec![])] };
    let workflow_id = orchestrator.start_workflow(&plan).unwrap();
    let initial_step_id = orchestrator.get_workflow_status(workflow_id).unwrap().dag.steps[0].step_id;
    let new_step = AgentPlanStep {
        description: "Dynamic step".to_string(),
        model: None,
        tools: vec!["browser".to_string()],
        depends_on: vec![],
        sensitivity: None,
        estimated_compute_ms: 2000,
    };
    let new_step_id = orchestrator.add_step(workflow_id, new_step, vec![initial_step_id]).unwrap();
    let state = orchestrator.get_workflow_status(workflow_id).unwrap();
    assert_eq!(state.total_steps, 2);
    let new_step = state.dag.steps.iter().find(|s| s.step_id == new_step_id).unwrap();
    assert_eq!(new_step.status, StepStatus::Pending);
    assert_eq!(new_step.description, "Dynamic step");
    assert_eq!(new_step.required_tools, vec!["browser".to_string()]);
    assert_eq!(new_step.input_dependencies, vec![initial_step_id]);
    assert!(state.dag.edges.contains(&(initial_step_id, new_step_id)));
}

#[test]
fn test_add_step_with_completed_deps_is_ready() {
    let mut orchestrator = WorkflowOrchestrator::new(test_node_id(), test_config());
    let plan = AgentPlan { name: "dynamic".to_string(), steps: vec![make_plan_step("Initial step", vec![])] };
    let workflow_id = orchestrator.start_workflow(&plan).unwrap();
    let initial_step_id = orchestrator.get_workflow_status(workflow_id).unwrap().dag.steps[0].step_id;
    set_step_status(&mut orchestrator, workflow_id, initial_step_id, StepStatus::Completed);
    let new_step_id =
        orchestrator.add_step(workflow_id, make_plan_step("Follow-up step", vec![]), vec![initial_step_id]).unwrap();
    let state = orchestrator.get_workflow_status(workflow_id).unwrap();
    let added = state.dag.steps.iter().find(|s| s.step_id == new_step_id).unwrap();
    assert_eq!(added.status, StepStatus::Ready);
}

#[test]
fn test_add_step_with_no_deps_is_ready() {
    let mut orchestrator = WorkflowOrchestrator::new(test_node_id(), test_config());
    let plan = AgentPlan { name: "dynamic".to_string(), steps: vec![make_plan_step("Initial step", vec![])] };
    let workflow_id = orchestrator.start_workflow(&plan).unwrap();
    let new_step_id = orchestrator.add_step(workflow_id, make_plan_step("Independent step", vec![]), vec![]).unwrap();
    let state = orchestrator.get_workflow_status(workflow_id).unwrap();
    let added = state.dag.steps.iter().find(|s| s.step_id == new_step_id).unwrap();
    assert_eq!(added.status, StepStatus::Ready);
    assert!(state.dag.root_steps.contains(&new_step_id));
}

#[test]
fn test_add_step_rejects_cycle() {
    let mut orchestrator = WorkflowOrchestrator::new(test_node_id(), test_config());
    let plan = AgentPlan {
        name: "cycle-test".to_string(),
        steps: vec![make_plan_step("Step A", vec![]), make_plan_step("Step B", vec![0])],
    };
    let workflow_id = orchestrator.start_workflow(&plan).unwrap();
    let state = orchestrator.get_workflow_status(workflow_id).unwrap();
    let step_a_id = state.dag.root_steps[0];
    let step_b_id = state.dag.steps.iter().map(|s| s.step_id).find(|&id| id != step_a_id).unwrap();
    let step_c_id = orchestrator.add_step(workflow_id, make_plan_step("Step C", vec![]), vec![step_b_id]).unwrap();
    workflow_mut(&mut orchestrator, workflow_id).dag.edges.push((step_c_id, step_a_id));
    let err = orchestrator.add_step(workflow_id, make_plan_step("Step D", vec![]), vec![step_c_id]).unwrap_err();
    assert_eq!(err, OrchestratorError::CycleDetected);
}

#[test]
fn test_add_step_to_nonexistent_workflow() {
    let mut orchestrator = WorkflowOrchestrator::new(test_node_id(), test_config());
    let fake_id = test_node_id();
    let err = orchestrator.add_step(fake_id, make_plan_step("New step", vec![]), vec![]).unwrap_err();
    assert_eq!(err, OrchestratorError::WorkflowNotFound(fake_id));
}

#[test]
fn test_add_step_to_completed_workflow() {
    let mut orchestrator = WorkflowOrchestrator::new(test_node_id(), test_config());
    let workflow_id = orchestrator.start_workflow(&make_simple_plan()).unwrap();
    orchestrator.cancel_workflow(workflow_id).unwrap();
    let err = orchestrator.add_step(workflow_id, make_plan_step("Late step", vec![]), vec![]).unwrap_err();
    assert_eq!(err, OrchestratorError::WorkflowAlreadyComplete);
}

#[test]
fn test_add_step_with_invalid_dependency() {
    let mut orchestrator = WorkflowOrchestrator::new(test_node_id(), test_config());
    let plan = AgentPlan { name: "test".to_string(), steps: vec![make_plan_step("Step A", vec![])] };
    let workflow_id = orchestrator.start_workflow(&plan).unwrap();
    let fake_dep = test_node_id();
    let err = orchestrator.add_step(workflow_id, make_plan_step("Bad dep step", vec![]), vec![fake_dep]).unwrap_err();
    assert!(matches!(err, OrchestratorError::DagBuildFailed(_)));
}

#[test]
fn test_add_step_emits_event() {
    let mut orchestrator = WorkflowOrchestrator::new(test_node_id(), test_config());
    let plan = AgentPlan { name: "test".to_string(), steps: vec![make_plan_step("Step A", vec![])] };
    let workflow_id = orchestrator.start_workflow(&plan).unwrap();
    orchestrator.drain_events();
    let new_step_id = orchestrator.add_step(workflow_id, make_plan_step("Dynamic step", vec![]), vec![]).unwrap();
    let events = orchestrator.drain_events();
    assert_eq!(events.len(), 1);
    match &events[0] {
        WorkflowEvent::StepAdded { workflow_id: wid, step_id, description } => {
            assert_eq!(*wid, workflow_id);
            assert_eq!(*step_id, new_step_id);
            assert_eq!(description, "Dynamic step");
        },
        _ => panic!("Expected StepAdded event"),
    }
}

#[test]
fn test_add_step_propagates_sensitivity() {
    let mut orchestrator = WorkflowOrchestrator::new(test_node_id(), test_config());
    let mut first = make_plan_step("Sensitive step", vec![]);
    first.sensitivity = Some(PromptSensitivity::Sensitive);
    let plan = AgentPlan { name: "sensitive".to_string(), steps: vec![first] };
    let workflow_id = orchestrator.start_workflow(&plan).unwrap();
    let sensitive_step_id = orchestrator.get_workflow_status(workflow_id).unwrap().dag.steps[0].step_id;
    let mut new_step = make_plan_step("Should become sensitive", vec![]);
    new_step.sensitivity = Some(PromptSensitivity::NonSensitive);
    let new_step_id = orchestrator.add_step(workflow_id, new_step, vec![sensitive_step_id]).unwrap();
    let state = orchestrator.get_workflow_status(workflow_id).unwrap();
    let added = state.dag.steps.iter().find(|s| s.step_id == new_step_id).unwrap();
    assert_eq!(added.sensitivity, PromptSensitivity::Sensitive);
}

#[test]
fn orchestrator_locality_holds_through_lifecycle() {
    let node_id = 0xdead_beef_u128;
    let mut orchestrator = WorkflowOrchestrator::new(node_id, test_config());
    let workflow_id = orchestrator.start_workflow(&make_simple_plan()).unwrap();
    let first = orchestrator.get_workflow_status(workflow_id).unwrap().dag.steps[0].step_id;
    let _ = orchestrator.add_step(workflow_id, make_plan_step("Dynamic", vec![]), vec![first]);
    orchestrator.cancel_workflow(workflow_id).unwrap();
    orchestrator.drain_events();
    assert_eq!(orchestrator.local_node_id(), node_id);
    assert_eq!(orchestrator.get_workflow_status(workflow_id).unwrap().requesting_node, node_id);
}

#[test]
fn orchestrator_refuses_oversized_plan() {
    let mut config = test_config();
    config.max_workflow_steps = 2;
    let mut orchestrator = WorkflowOrchestrator::new(1, config);
    let err = orchestrator.start_workflow(&make_simple_plan()).unwrap_err();
    assert_eq!(err, OrchestratorError::DagBuildFailed("Workflow has 3 steps, exceeding maximum of 2".to_string()));
    assert_eq!(err.to_text(), "DAG build failed: Workflow has 3 steps, exceeding maximum of 2");
}

#[test]
fn orchestrator_step_failure_is_reported() {
    let mut orchestrator = WorkflowOrchestrator::new(1, test_config());
    let workflow_id = orchestrator.start_workflow(&make_simple_plan()).unwrap();
    let step = orchestrator.get_workflow_status(workflow_id).unwrap().dag.root_steps[0];
    orchestrator.notify_step_started(workflow_id, step).unwrap();
    orchestrator.drain_events();
    orchestrator.notify_step_failed(workflow_id, step, "boom".to_string()).unwrap();
    assert_eq!(orchestrator.get_workflow_status(workflow_id).unwrap().parallel_steps_active, 0);
    let events = orchestrator.drain_events();
    assert!(matches!(&events[..], [WorkflowEvent::StepFailed { step_id, reason, .. }] if *step_id == step && reason == "boom"));
    assert_eq!(orchestrator.notify_step_failed(7, step, "x".to_string()), Err(OrchestratorError::WorkflowNotFound(7)));
}
