use resonantos_core::agents::dag::{
    build_execution_dag, build_execution_dag_with_ids, AgentPlan, AgentPlanStep, DagBuildError, DagValidationError,
    ExecutionDag, ExecutionStep, PromptSensitivity, StepStatus,
};

fn new_id() -> u128 {
    uuid::Uuid::new_v4().as_u128()
}

fn make_step(step_id: u128) -> ExecutionStep {
    ExecutionStep {
        step_id,
        description: format!("Step {}", step_id),
        required_model: None,
        required_tools: Vec::new(),
        sensitivity: PromptSensitivity::NonSensitive,
        estimated_compute_ms: 1000,
        input_dependencies: Vec::new(),
        status: StepStatus::Pending,
        assigned_node: None,
        result: None,
    }
}

fn dag_of(ids: &[u128], edges: Vec<(u128, u128)>, root_steps: Vec<u128>) -> ExecutionDag {
    ExecutionDag { workflow_id: new_id(), steps: ids.iter().map(|&i| make_step(i)).collect(), edges, root_steps }
}

fn make_plan_step(description: &str, depends_on: Vec<usize>) -> AgentPlanStep {
    AgentPlanStep {
        description: description.to_string(),
        model: None,
        tools: Vec::new(),
        depends_on,
        sensitivity: None,
        estimated_compute_ms: 0,
    }
}

fn sens_step(description: &str, depends_on: Vec<usize>, sensitive: bool) -> AgentPlanStep {
    AgentPlanStep {
        description: description.to_string(),
        model: None,
        tools: Vec::new(),
        depends_on,
        sensitivity: if sensitive { Some(PromptSensitivity::Sensitive) } else { None },
        estimated_compute_ms: 1000,
    }
}

fn find<'a>(dag: &'a ExecutionDag, desc: &str) -> &'a ExecutionStep {
    dag.steps.iter().find(|s| s.description == desc).unwrap()
}

fn pos(sorted: &[u128], id: u128) -> usize {
    sorted.iter().position(|&x| x == id).unwrap()
}

#[test]
fn test_empty_dag_is_valid() {
    let dag = dag_of(&[], Vec::new(), Vec::new());
    assert!(dag.validate().is_ok());
}

#[test]
fn test_single_step_dag_is_valid() {
    let id = new_id();
    let dag = dag_of(&[id], Vec::new(), vec![id]);
    assert!(dag.validate().is_ok());
}

#[test]
fn test_linear_dag_is_valid() {
    let (a, b, c) = (new_id(), new_id(), new_id());
    let dag = dag_of(&[a, b, c], vec![(a, b), (b, c)], vec![a]);
    assert!(dag.validate().is_ok());
}

#[test]
fn test_diamond_dag_is_valid() {
    let (a, b, c, d) = (new_id(), new_id(), new_id(), new_id());
    let dag = dag_of(&[a, b, c, d], vec![(a, b), (a, c), (b, d), (c, d)], vec![a]);
    assert!(dag.validate().is_ok());
}

#[test]
fn test_cycle_detected() {
    let (a, b, c) = (new_id(), new_id(), new_id());
    let dag = dag_of(&[a, b, c], vec![(a, b), (b, c), (c, a)], Vec::new());
    assert_eq!(dag.validate(), Err(DagValidationError::CycleDetected));
}

#[test]
fn test_self_loop_detected() {
    let a = new_id();
    let dag = dag_of(&[a], vec![(a, a)], Vec::new());
    assert_eq!(dag.validate(), Err(DagValidationError::CycleDetected));
}

#[test]
fn test_invalid_edge_from_missing() {
    let (a, b, phantom) = (new_id(), new_id(), new_id());
    let dag = dag_of(&[a, b], vec![(phantom, b)], vec![a]);
    let err = dag.validate().unwrap_err();
    assert_eq!(err, DagValidationError::InvalidEdge { from: phantom, to: b, missing: phantom });
}

#[test]
fn test_invalid_edge_to_missing() {
    let (a, b, phantom) = (new_id(), new_id(), new_id());
    let dag = dag_of(&[a, b], vec![(a, phantom)], vec![a]);
    let err = dag.validate().unwrap_err();
    assert_eq!(err, DagValidationError::InvalidEdge { from: a, to: phantom, missing: phantom });
}

#[test]
fn test_topological_sort_linear() {
    let (a, b, c) = (new_id(), new_id(), new_id());
    let dag = dag_of(&[a, b, c], vec![(a, b), (b, c)], vec![a]);
    let sorted = dag.topological_sort().unwrap();
    assert_eq!(sorted.len(), 3);
    assert!(pos(&sorted, a) < pos(&sorted, b));
    assert!(pos(&sorted, b) < pos(&sorted, c));
}

#[test]
fn test_topological_sort_cycle_returns_none() {
    let (a, b) = (new_id(), new_id());
    let dag = dag_of(&[a, b], vec![(a, b), (b, a)], Vec::new());
    assert!(dag.topological_sort().is_none());
}

#[test]
fn test_compute_root_steps() {
    let (a, b, c) = (new_id(), new_id(), new_id());
    let mut dag = dag_of(&[a, b, c], vec![(a, b), (a, c)], Vec::new());
    dag.compute_root_steps();
    assert_eq!(dag.root_steps.len(), 1);
    assert!(dag.root_steps.contains(&a));
}

#[test]
fn test_compute_root_steps_multiple_roots() {
    let (a, b, c) = (new_id(), new_id(), new_id());
    let mut dag = dag_of(&[a, b, c], vec![(a, c), (b, c)], Vec::new());
    dag.compute_root_steps();
    assert_eq!(dag.root_steps.len(), 2);
    assert!(dag.root_steps.contains(&a));
    assert!(dag.root_steps.contains(&b));
}

#[test]
fn test_execution_step_with_dependencies() {
    let (dep1, dep2, step_id) = (new_id(), new_id(), new_id());
    let step = ExecutionStep {
        step_id,
        description: "Synthesize results".to_string(),
        required_model: Some("llama3:70b".to_string()),
        required_tools: vec!["code_exec".to_string()],
        sensitivity: PromptSensitivity::Sensitive,
        estimated_compute_ms: 5000,
        input_dependencies: vec![dep1, dep2],
        status: StepStatus::Pending,
        assigned_node: None,
        result: None,
    };
    assert_eq!(step.input_dependencies.len(), 2);
    assert_eq!(step.sensitivity, PromptSensitivity::Sensitive);
    assert_eq!(step.required_model, Some("llama3:70b".to_string()));
}

#[test]
fn test_build_dag_empty_plan_returns_error() {
    let plan = AgentPlan { name: "empty".to_string(), steps: Vec::new() };
    let err = build_execution_dag(&plan).unwrap_err();
    assert_eq!(err, DagBuildError::EmptyPlan);
}

#[test]
fn test_build_dag_single_step() {
    let plan = AgentPlan { name: "single".to_string(), steps: vec![make_plan_step("Do something", vec![])] };
    let dag = build_execution_dag(&plan).unwrap();
    assert_eq!(dag.steps.len(), 1);
    assert_eq!(dag.edges.len(), 0);
    assert_eq!(dag.root_steps.len(), 1);
    let step = &dag.steps[0];
    assert_eq!(step.description, "Do something");
    assert_eq!(step.status, StepStatus::Pending);
    assert_eq!(step.sensitivity, PromptSensitivity::NonSensitive);
}

#[test]
fn test_build_dag_linear_chain() {
    let plan = AgentPlan {
        name: "linear".to_string(),
        steps: vec![make_plan_step("Step A", vec![]), make_plan_step("Step B", vec![0]), make_plan_step("Step C", vec![1])],
    };
    let dag = build_execution_dag(&plan).unwrap();
    assert_eq!(dag.steps.len(), 3);
    assert_eq!(dag.edges.len(), 2);
    assert_eq!(dag.root_steps.len(), 1);
    let sorted = dag.topological_sort().unwrap();
    assert_eq!(sorted.len(), 3);
    assert!(dag.root_steps.contains(&sorted[0]));
}

#[test]
fn test_build_dag_parallel_steps() {
    let plan = AgentPlan {
        name: "parallel".to_string(),
        steps: vec![make_plan_step("Step A", vec![]), make_plan_step("Step B", vec![]), make_plan_step("Step C", vec![0, 1])],
    };
    let dag = build_execution_dag(&plan).unwrap();
    assert_eq!(dag.steps.len(), 3);
    assert_eq!(dag.edges.len(), 2);
    assert_eq!(dag.root_steps.len(), 2);
    let sorted = dag.topological_sort().unwrap();
    let step_c = find(&dag, "Step C");
    assert_eq!(pos(&sorted, step_c.step_id), 2);
}

#[test]
fn test_build_dag_diamond_shape() {
    let plan = AgentPlan {
        name: "diamond".to_string(),
        steps: vec![
            make_plan_step("A", vec![]),
            make_plan_step("B", vec![0]),
            make_plan_step("C", vec![0]),
            make_plan_step("D", vec![1, 2]),
        ],
    };
    let dag = build_execution_dag(&plan).unwrap();
    assert_eq!(dag.steps.len(), 4);
    assert_eq!(dag.edges.len(), 4);
    assert_eq!(dag.root_steps.len(), 1);
    let sorted = dag.topological_sort().unwrap();
    assert_eq!(sorted.len(), 4);
    let (a, b, c, d) = (find(&dag, "A").step_id, find(&dag, "B").step_id, find(&dag, "C").step_id, find(&dag, "D").step_id);
    assert!(pos(&sorted, a) < pos(&sorted, b));
    assert!(pos(&sorted, a) < pos(&sorted, c));
    assert!(pos(&sorted, b) < pos(&sorted, d));
    assert!(pos(&sorted, c) < pos(&sorted, d));
}

#[test]
fn test_build_dag_invalid_dependency_index() {
    let plan = AgentPlan { name: "bad dep".to_string(), steps: vec![make_plan_step("A", vec![]), make_plan_step("B", vec![5])] };
    let err = build_execution_dag(&plan).unwrap_err();
    assert_eq!(err, DagBuildError::InvalidDependencyIndex { step_index: 1, dependency_index: 5, plan_length: 2 });
}

#[test]
fn test_build_dag_self_dependency() {
    let plan = AgentPlan { name: "self dep".to_string(), steps: vec![make_plan_step("A", vec![0])] };
    let err = build_execution_dag(&plan).unwrap_err();
    assert_eq!(err, DagBuildError::SelfDependency { step_index: 0 });
}

#[test]
fn test_build_dag_cycle_detected() {
    let plan = AgentPlan { name: "cycle".to_string(), steps: vec![make_plan_step("A", vec![1]), make_plan_step("B", vec![0])] };
    let err = build_execution_dag(&plan).unwrap_err();
    assert_eq!(err, DagBuildError::CycleDetected);
}

#[test]
fn test_build_dag_preserves_model_and_tools() {
    let plan = AgentPlan {
        name: "model+tools".to_string(),
        steps: vec![AgentPlanStep {
            description: "Inference step".to_string(),
            model: Some("qwen2.5:14b".to_string()),
            tools: vec!["browser".to_string(), "filesystem".to_string()],
            depends_on: vec![],
            sensitivity: Some(PromptSensitivity::Sensitive),
            estimated_compute_ms: 5000,
        }],
    };
    let dag = build_execution_dag(&plan).unwrap();
    let step = &dag.steps[0];
    assert_eq!(step.required_model, Some("qwen2.5:14b".to_string()));
    assert_eq!(step.required_tools, vec!["browser", "filesystem"]);
    assert_eq!(step.sensitivity, PromptSensitivity::Sensitive);
    assert_eq!(step.estimated_compute_ms, 5000);
}

#[test]
fn test_build_dag_default_sensitivity_and_compute() {
    let plan = AgentPlan { name: "defaults".to_string(), steps: vec![make_plan_step("Simple step", vec![])] };
    let dag = build_execution_dag(&plan).unwrap();
    let step = &dag.steps[0];
    assert_eq!(step.sensitivity, PromptSensitivity::NonSensitive);
    assert_eq!(step.estimated_compute_ms, 1000);
}

#[test]
fn test_build_dag_edges_match_dependencies() {
    let plan = AgentPlan {
        name: "edges".to_string(),
        steps: vec![make_plan_step("A", vec![]), make_plan_step("B", vec![0]), make_plan_step("C", vec![0])],
    };
    let dag = build_execution_dag(&plan).unwrap();
    let (a, b, c) = (find(&dag, "A").step_id, find(&dag, "B").step_id, find(&dag, "C").step_id);
    assert!(dag.edges.contains(&(a, b)));
    assert!(dag.edges.contains(&(a, c)));
    assert_eq!(dag.edges.len(), 2);
}

#[test]
fn test_build_dag_input_dependencies_are_step_ids() {
    let plan = AgentPlan { name: "deps as ids".to_string(), steps: vec![make_plan_step("A", vec![]), make_plan_step("B", vec![0])] };
    let dag = build_execution_dag(&plan).unwrap();
    let a = find(&dag, "A");
    let b = find(&dag, "B");
    assert_eq!(b.input_dependencies.len(), 1);
    assert_eq!(b.input_dependencies[0], a.step_id);
}

#[test]
fn test_build_dag_workflow_id_is_unique() {
    let plan = AgentPlan { name: "unique".to_string(), steps: vec![make_plan_step("A", vec![])] };
    let dag1 = build_execution_dag(&plan).unwrap();
    let dag2 = build_execution_dag(&plan).unwrap();
    assert_ne!(dag1.workflow_id, dag2.workflow_id);
}

#[test]
fn test_build_dag_multiple_dependencies() {
    let plan = AgentPlan {
        name: "multi-dep".to_string(),
        steps: vec![
            make_plan_step("A", vec![]),
            make_plan_step("B", vec![]),
            make_plan_step("C", vec![]),
            make_plan_step("D", vec![0, 1, 2]),
        ],
    };
    let dag = build_execution_dag(&plan).unwrap();
    assert_eq!(dag.steps.len(), 4);
    assert_eq!(dag.edges.len(), 3);
    assert_eq!(dag.root_steps.len(), 3);
    assert_eq!(find(&dag, "D").input_dependencies.len(), 3);
}

#[test]
fn test_propagate_sensitivity_direct_dependent() {
    let plan = AgentPlan { name: "sensitivity direct".to_string(), steps: vec![sens_step("A", vec![], true), sens_step("B", vec![0], false)] };
    let dag = build_execution_dag(&plan).unwrap();
    assert_eq!(find(&dag, "B").sensitivity, PromptSensitivity::Sensitive);
}

#[test]
fn test_propagate_sensitivity_transitive() {
    let plan = AgentPlan {
        name: "sensitivity transitive".to_string(),
        steps: vec![sens_step("A", vec![], true), sens_step("B", vec![0], false), sens_step("C", vec![1], false)],
    };
    let dag = build_execution_dag(&plan).unwrap();
    assert_eq!(find(&dag, "B").sensitivity, PromptSensitivity::Sensitive);
    assert_eq!(find(&dag, "C").sensitivity, PromptSensitivity::Sensitive);
}

#[test]
fn test_propagate_sensitivity_non_sensitive_does_not_affect_dependents() {
    let plan = AgentPlan { name: "no propagation".to_string(), steps: vec![make_plan_step("A", vec![]), make_plan_step("B", vec![0])] };
    let dag = build_execution_dag(&plan).unwrap();
    assert_eq!(find(&dag, "A").sensitivity, PromptSensitivity::NonSensitive);
    assert_eq!(find(&dag, "B").sensitivity, PromptSensitivity::NonSensitive);
}

#[test]
fn test_propagate_sensitivity_diamond_shape() {
    let plan = AgentPlan {
        name: "sensitivity diamond".to_string(),
        steps: vec![
            sens_step("A", vec![], true),
            sens_step("B", vec![0], false),
            sens_step("C", vec![0], false),
            sens_step("D", vec![1, 2], false),
        ],
    };
    let dag = build_execution_dag(&plan).unwrap();
    assert_eq!(find(&dag, "B").sensitivity, PromptSensitivity::Sensitive);
    assert_eq!(find(&dag, "C").sensitivity, PromptSensitivity::Sensitive);
    assert_eq!(find(&dag, "D").sensitivity, PromptSensitivity::Sensitive);
}

#[test]
fn test_propagate_sensitivity_partial_graph() {
    let plan = AgentPlan {
        name: "partial sensitivity".to_string(),
        steps: vec![sens_step("A", vec![], false), sens_step("B", vec![], true), sens_step("C", vec![0, 1], false)],
    };
    let dag = build_execution_dag(&plan).unwrap();
    assert_eq!(find(&dag, "A").sensitivity, PromptSensitivity::NonSensitive);
    assert_eq!(find(&dag, "B").sensitivity, PromptSensitivity::Sensitive);
    assert_eq!(find(&dag, "C").sensitivity, PromptSensitivity::Sensitive);
}

#[test]
fn dag_build_with_given_ids_is_deterministic() {
    let plan = AgentPlan { name: "ids".to_string(), steps: vec![make_plan_step("A", vec![]), make_plan_step("B", vec![0])] };
    let dag = build_execution_dag_with_ids(&plan, 77, &vec![10, 20]).unwrap();
    assert_eq!(dag.workflow_id, 77);
    assert_eq!(dag.steps[0].step_id, 10);
    assert_eq!(dag.steps[1].step_id, 20);
    assert_eq!(dag.edges, vec![(10, 20)]);
    assert_eq!(dag.root_steps, vec![10]);
    assert_eq!(dag.steps[1].input_dependencies, vec![10]);
}

#[test]
fn dag_error_messages() {
    assert_eq!(DagBuildError::EmptyPlan.to_text(), "Agent plan has no steps");
    assert_eq!(DagBuildError::SelfDependency { step_index: 3 }.to_text(), "Step 3 depends on itself");
    assert_eq!(
        DagBuildError::InvalidDependencyIndex { step_index: 1, dependency_index: 5, plan_length: 2 }.to_text(),
        "Step 1 references dependency index 5 but plan only has 2 steps"
    );
    assert_eq!(DagValidationError::CycleDetected.to_text(), "DAG contains a cycle");
    let e = DagValidationError::InvalidEdge { from: 1, to: 2, missing: 2 };
    assert_eq!(
        e.to_text(),
        "Edge (00000000-0000-0000-0000-000000000001 -> 00000000-0000-0000-0000-000000000002) references non-existent step 00000000-0000-0000-0000-000000000002"
    );
}

#[test]
fn propagate_sensitivity_on_hand_built_dag() {
    let (a, b, c) = (1u128, 2u128, 3u128);
    let mut dag = dag_of(&[a, b, c], vec![(a, b)], vec![a, c]);
    dag.steps[0].sensitivity = PromptSensitivity::Sensitive;
    dag.propagate_sensitivity();
    assert_eq!(dag.steps[1].sensitivity, PromptSensitivity::Sensitive);
    assert_eq!(dag.steps[2].sensitivity, PromptSensitivity::NonSensitive);
}
