use resonantos_core::agents::checkpoint::{
    build_checkpoint_at, checkpoint_file_name, incomplete_workflows, workflow_from_file_name, CheckpointManager,
};
use resonantos_core::agents::dag::{ExecutionDag, ExecutionStep, PromptSensitivity, StepResult, StepStatus};
use resonantos_core::ids::uuid_from_text;

fn new_id() -> u128 {
    uuid::Uuid::new_v4().as_u128()
}

fn make_step(step_id: u128, status: StepStatus, result: Option<StepResult>) -> ExecutionStep {
    ExecutionStep {
        step_id,
        description: format!("Step {}", step_id),
        required_model: None,
        required_tools: Vec::new(),
        sensitivity: PromptSensitivity::NonSensitive,
        estimated_compute_ms: 1000,
        input_dependencies: Vec::new(),
        status,
        assigned_node: None,
        result,
    }
}

fn make_result(step_id: u128) -> StepResult {
    StepResult {
        step_id,
        output_data: vec![10, 20, 30],
        output_size_bytes: 3,
        execution_node: new_id(),
        compute_time_ms: 250,
        model_used: Some("qwen2.5:14b".to_string()),
        tools_used: vec!["browser".to_string()],
    }
}

/// A (Completed) -> B (Running) -> C (Pending), A -> D (Completed)
fn make_test_dag() -> ExecutionDag {
    let (wf, a, b, c, d) = (new_id(), new_id(), new_id(), new_id(), new_id());
    ExecutionDag {
        workflow_id: wf,
        steps: vec![
            make_step(a, StepStatus::Completed, Some(make_result(a))),
            make_step(b, StepStatus::Running, None),
            make_step(c, StepStatus::Pending, None),
            make_step(d, StepStatus::Completed, Some(make_result(d))),
        ],
        edges: vec![(a, b), (b, c), (a, d)],
        root_steps: vec![a],
    }
}

fn manager(interval: u64) -> CheckpointManager {
    CheckpointManager::new("/tmp/test".to_string(), interval)
}

fn now_ms() -> u64 {
    std::time::SystemTime::now().duration_since(std::time::UNIX_EPOCH).unwrap().as_millis() as u64
}

#[test]
fn test_build_checkpoint_extracts_completed_results() {
    let dag = make_test_dag();
    let checkpoint = manager(300).build_checkpoint(&dag);
    assert_eq!(checkpoint.completed_step_results.len(), 2);
    for s in dag.steps.iter().filter(|s| s.status == StepStatus::Completed) {
        assert!(checkpoint.completed_step_results.iter().any(|(id, _)| *id == s.step_id));
    }
}

#[test]
fn test_build_checkpoint_extracts_pending_steps() {
    let dag = make_test_dag();
    let checkpoint = manager(300).build_checkpoint(&dag);
    assert_eq!(checkpoint.pending_steps.len(), 2);
    for s in dag.steps.iter().filter(|s| s.status != StepStatus::Completed) {
        assert!(checkpoint.pending_steps.contains(&s.step_id));
    }
}

#[test]
fn test_build_checkpoint_all_completed() {
    let (wf, a, b) = (new_id(), new_id(), new_id());
    let dag = ExecutionDag {
        workflow_id: wf,
        steps: vec![
            make_step(a, StepStatus::Completed, Some(make_result(a))),
            make_step(b, StepStatus::Completed, Some(make_result(b))),
        ],
        edges: vec![(a, b)],
        root_steps: vec![a],
    };
    let checkpoint = manager(300).build_checkpoint(&dag);
    assert_eq!(checkpoint.completed_step_results.len(), 2);
    assert!(checkpoint.pending_steps.is_empty());
}

#[test]
fn test_build_checkpoint_all_pending() {
    let (wf, a, b) = (new_id(), new_id(), new_id());
    let dag = ExecutionDag {
        workflow_id: wf,
        steps: vec![make_step(a, StepStatus::Pending, None), make_step(b, StepStatus::Ready, None)],
        edges: vec![(a, b)],
        root_steps: vec![a],
    };
    let checkpoint = manager(300).build_checkpoint(&dag);
    assert!(checkpoint.completed_step_results.is_empty());
    assert_eq!(checkpoint.pending_steps.len(), 2);
}

#[test]
fn test_should_checkpoint_first_time_returns_true() {
    assert!(manager(300).should_checkpoint(new_id()));
}

#[test]
fn test_should_checkpoint_after_save_returns_false() {
    let mut m = manager(300);
    let dag = make_test_dag();
    let wf = dag.workflow_id;
    m.record_checkpoint(wf, now_ms());
    assert!(!m.should_checkpoint(wf));
}

#[test]
fn test_should_checkpoint_with_zero_interval_always_true() {
    let mut m = manager(0);
    let dag = make_test_dag();
    let wf = dag.workflow_id;
    m.record_checkpoint(wf, now_ms());
    assert!(m.should_checkpoint(wf));
}

#[test]
fn test_list_incomplete_workflows_empty_dir() {
    assert!(incomplete_workflows(&Vec::new()).is_empty());
}

#[test]
fn test_list_incomplete_workflows_finds_checkpoints() {
    let (wf1, wf2) = (new_id(), new_id());
    let names = vec![checkpoint_file_name(wf1), checkpoint_file_name(wf2)];
    let workflows = incomplete_workflows(&names);
    assert_eq!(workflows.len(), 2);
    assert!(workflows.contains(&wf1));
    assert!(workflows.contains(&wf2));
}

#[test]
fn test_list_incomplete_workflows_ignores_non_json_files() {
    let names = vec!["readme.txt".to_string(), "not-a-uuid.json".to_string()];
    assert!(incomplete_workflows(&names).is_empty());
}

#[test]
fn test_delete_checkpoint_clears_last_checkpoint_tracking() {
    let mut m = manager(300);
    let wf = make_test_dag().workflow_id;
    m.record_checkpoint(wf, now_ms());
    assert!(!m.should_checkpoint(wf));
    m.forget_checkpoint(wf);
    assert!(m.should_checkpoint(wf));
}

#[test]
fn checkpoint_due_after_interval() {
    let mut m = manager(300);
    m.record_checkpoint(7, 1_000);
    assert_eq!(m.last_checkpoint_of(7), Some(1_000));
    assert!(!m.should_checkpoint_at(7, 300_999));
    assert!(m.should_checkpoint_at(7, 301_000));
    m.record_checkpoint(7, 400_000);
    assert_eq!(m.last_checkpoint_of(7), Some(400_000));
    assert_eq!(m.last_checkpoint_of(8), None);
}

#[test]
fn checkpoint_file_names_round_trip() {
    let wf = 0x0123_4567_89ab_cdef_0123_4567_89ab_cdef_u128;
    let name = checkpoint_file_name(wf);
    assert_eq!(name, "01234567-89ab-cdef-0123-456789abcdef.json");
    assert_eq!(workflow_from_file_name(&name), Some(wf));
    assert_eq!(workflow_from_file_name("01234567-89ab-cdef-0123-456789abcdef.txt"), None);
    let m = CheckpointManager::new("/var/ckpt".to_string(), 60);
    assert_eq!(m.checkpoint_file_path(wf), "/var/ckpt/01234567-89ab-cdef-0123-456789abcdef.json");
}

#[test]
fn build_checkpoint_at_keeps_results_and_time() {
    let dag = make_test_dag();
    let cp = build_checkpoint_at(&dag, 1234);
    assert_eq!(cp.checkpointed_at_ms, 1234);
    let (id, r) = &cp.completed_step_results[0];
    assert_eq!(*id, dag.steps[0].step_id);
    assert_eq!(r.output_data, vec![10, 20, 30]);
    assert_eq!(cp.pending_steps, vec![dag.steps[1].step_id, dag.steps[2].step_id]);
}

#[test]
fn build_checkpoint_leaves_failed_and_cancelled_out_of_pending() {
    let (wf, a, b, c, d) = (new_id(), new_id(), new_id(), new_id(), new_id());
    let dag = ExecutionDag {
        workflow_id: wf,
        steps: vec![
            make_step(a, StepStatus::Ready, None),
            make_step(b, StepStatus::Failed { reason: "oom".to_string(), retries: 2 }, None),
            make_step(c, StepStatus::Cancelled, None),
            make_step(d, StepStatus::Dispatched, None),
        ],
        edges: vec![],
        root_steps: vec![a, b, c, d],
    };
    let cp = build_checkpoint_at(&dag, 7);
    assert_eq!(cp.pending_steps, vec![a, d]);
    assert!(cp.completed_step_results.is_empty());
}

#[test]
fn uuid_text_forms_read_back() {
    let v = 0x67e5_5044_10b1_426f_9247_bb68_0e5f_e0c8_u128;
    let s = resonantos_core::ids::uuid_text(v);
    assert_eq!(s, "67e55044-10b1-426f-9247-bb680e5fe0c8");
    assert_eq!(uuid_from_text(&s), Some(v));
    assert_eq!(uuid_from_text("67e5504410b1426f9247bb680e5fe0c8"), Some(v));
    assert_eq!(uuid_from_text("{67E55044-10B1-426F-9247-BB680E5FE0C8}"), Some(v));
    assert_eq!(uuid_from_text("URN:uuid:67e55044-10b1-426f-9247-bb680e5fe0c8"), Some(v));
    assert_eq!(uuid_from_text("67e55044-10b1-426f-9247-bb680e5fe0cg"), None);
    assert_eq!(uuid_from_text("67e55044_10b1-426f-9247-bb680e5fe0c8"), None);
    assert_eq!(uuid_from_text(""), None);
}
