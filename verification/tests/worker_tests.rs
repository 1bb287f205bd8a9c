use resonantos_core::agents::dag::{ExecutionStep, PromptSensitivity, StepStatus};
use resonantos_core::agents::protocol::{AgentStepMessage, ToolCapability};
use resonantos_core::agents::worker::{StepExecutionError, StepExecutor, StepWorker};

struct MockSuccessExecutor {
    output: Vec<u8>,
}

impl StepExecutor for MockSuccessExecutor {
    fn execute(&self, _step: &ExecutionStep, _input_data: &Vec<(u128, Vec<u8>)>) -> Result<Vec<u8>, StepExecutionError> {
        Ok(self.output.clone())
    }
}

struct MockFailExecutor {
    error: StepExecutionError,
}

impl StepExecutor for MockFailExecutor {
    fn execute(&self, _step: &ExecutionStep, _input_data: &Vec<(u128, Vec<u8>)>) -> Result<Vec<u8>, StepExecutionError> {
        Err(self.error.clone())
    }
}

fn make_tool(tool_id: &str, available: bool) -> ToolCapability {
    ToolCapability { tool_id: tool_id.to_string(), is_available: available }
}

fn make_step(step_id: u128, model: Option<&str>, tools: Vec<&str>) -> ExecutionStep {
    ExecutionStep {
        step_id,
        description: "Test step".to_string(),
        required_model: model.map(|s| s.to_string()),
        required_tools: tools.into_iter().map(|s| s.to_string()).collect(),
        sensitivity: PromptSensitivity::NonSensitive,
        estimated_compute_ms: 1000,
        input_dependencies: Vec::new(),
        status: StepStatus::Dispatched,
        assigned_node: None,
        result: None,
    }
}

fn make_worker(models: Vec<&str>, tools: Vec<ToolCapability>) -> StepWorker {
    StepWorker::new(uuid::Uuid::new_v4().as_u128(), models.into_iter().map(|s| s.to_string()).collect(), tools)
}

fn new_id() -> u128 {
    uuid::Uuid::new_v4().as_u128()
}

#[test]
fn test_successful_step_execution_returns_started_and_completed() {
    let worker = make_worker(vec!["qwen2.5:7b"], vec![make_tool("browser", true)]);
    let step_id = new_id();
    let workflow_id = new_id();
    let step = make_step(step_id, Some("qwen2.5:7b"), vec!["browser"]);
    let executor = MockSuccessExecutor { output: vec![42, 43, 44] };
    let messages = worker.handle_execute_step(workflow_id, &step, &Vec::new(), &executor);
    assert_eq!(messages.len(), 2);
    match &messages[0] {
        AgentStepMessage::StepStarted { workflow_id: wid, step_id: sid, node_id } => {
            assert_eq!(*wid, workflow_id);
            assert_eq!(*sid, step_id);
            assert_eq!(*node_id, worker.node_id());
        },
        _ => panic!("Expected StepStarted, got {:?}", messages[0]),
    }
    match &messages[1] {
        AgentStepMessage::StepCompleted { workflow_id: wid, step_id: sid, result } => {
            assert_eq!(*wid, workflow_id);
            assert_eq!(*sid, step_id);
            assert_eq!(result.output_data, vec![42, 43, 44]);
            assert_eq!(result.output_size_bytes, 3);
            assert_eq!(result.execution_node, worker.node_id());
        },
        _ => panic!("Expected StepCompleted, got {:?}", messages[1]),
    }
}

#[test]
fn test_missing_model_returns_retryable_failure() {
    let worker = make_worker(vec!["qwen2.5:7b"], vec![make_tool("browser", true)]);
    let step_id = new_id();
    let workflow_id = new_id();
    let step = make_step(step_id, Some("llama3:70b"), vec!["browser"]);
    let executor = MockSuccessExecutor { output: vec![] };
    let messages = worker.handle_execute_step(workflow_id, &step, &Vec::new(), &executor);
    assert_eq!(messages.len(), 1);
    match &messages[0] {
        AgentStepMessage::StepFailed { workflow_id: wid, step_id: sid, error, retryable } => {
            assert_eq!(*wid, workflow_id);
            assert_eq!(*sid, step_id);
            assert!(error.contains("llama3:70b"));
            assert!(error.contains("no longer loaded"));
            assert!(*retryable);
        },
        _ => panic!("Expected StepFailed, got {:?}", messages[0]),
    }
}

#[test]
fn test_missing_tool_returns_retryable_failure() {
    let worker = make_worker(vec!["qwen2.5:7b"], vec![make_tool("filesystem", true)]);
    let step = make_step(new_id(), Some("qwen2.5:7b"), vec!["browser"]);
    let executor = MockSuccessExecutor { output: vec![] };
    let messages = worker.handle_execute_step(new_id(), &step, &Vec::new(), &executor);
    assert_eq!(messages.len(), 1);
    match &messages[0] {
        AgentStepMessage::StepFailed { error, retryable, .. } => {
            assert!(error.contains("browser"));
            assert!(error.contains("not found"));
            assert!(*retryable);
        },
        _ => panic!("Expected StepFailed, got {:?}", messages[0]),
    }
}

#[test]
fn test_unavailable_tool_returns_retryable_failure() {
    let worker = make_worker(vec!["qwen2.5:7b"], vec![make_tool("browser", false)]);
    let step = make_step(new_id(), Some("qwen2.5:7b"), vec!["browser"]);
    let executor = MockSuccessExecutor { output: vec![] };
    let messages = worker.handle_execute_step(new_id(), &step, &Vec::new(), &executor);
    assert_eq!(messages.len(), 1);
    match &messages[0] {
        AgentStepMessage::StepFailed { error, retryable, .. } => {
            assert!(error.contains("browser"));
            assert!(error.contains("unavailable"));
            assert!(*retryable);
        },
        _ => panic!("Expected StepFailed, got {:?}", messages[0]),
    }
}

#[test]
fn test_execution_error_returns_non_retryable_failure() {
    let worker = make_worker(vec!["qwen2.5:7b"], vec![make_tool("browser", true)]);
    let step = make_step(new_id(), Some("qwen2.5:7b"), vec!["browser"]);
    let executor = MockFailExecutor { error: StepExecutionError::ExecutionError("Invalid input format".to_string()) };
    let messages = worker.handle_execute_step(new_id(), &step, &Vec::new(), &executor);
    assert_eq!(messages.len(), 2);
    match &messages[0] {
        AgentStepMessage::StepStarted { .. } => {},
        _ => panic!("Expected StepStarted, got {:?}", messages[0]),
    }
    match &messages[1] {
        AgentStepMessage::StepFailed { error, retryable, .. } => {
            assert!(error.contains("Invalid input format"));
            assert!(!retryable);
        },
        _ => panic!("Expected StepFailed, got {:?}", messages[1]),
    }
}

#[test]
fn test_timeout_error_is_retryable() {
    let worker = make_worker(vec!["qwen2.5:7b"], vec![make_tool("browser", true)]);
    let step = make_step(new_id(), Some("qwen2.5:7b"), vec!["browser"]);
    let executor = MockFailExecutor { error: StepExecutionError::Timeout };
    let messages = worker.handle_execute_step(new_id(), &step, &Vec::new(), &executor);
    assert_eq!(messages.len(), 2);
    match &messages[1] {
        AgentStepMessage::StepFailed { error, retryable, .. } => {
            assert!(error.contains("timed out"));
            assert!(*retryable);
        },
        _ => panic!("Expected StepFailed, got {:?}", messages[1]),
    }
}

#[test]
fn test_step_with_no_model_requirement_skips_model_check() {
    let worker = make_worker(vec![], vec![make_tool("filesystem", true)]);
    let step = make_step(new_id(), None, vec!["filesystem"]);
    let executor = MockSuccessExecutor { output: vec![1, 2, 3] };
    let messages = worker.handle_execute_step(new_id(), &step, &Vec::new(), &executor);
    assert_eq!(messages.len(), 2);
    match &messages[0] {
        AgentStepMessage::StepStarted { .. } => {},
        _ => panic!("Expected StepStarted"),
    }
    match &messages[1] {
        AgentStepMessage::StepCompleted { result, .. } => {
            assert_eq!(result.output_data, vec![1, 2, 3]);
        },
        _ => panic!("Expected StepCompleted"),
    }
}

#[test]
fn test_verify_tools_all_available() {
    let worker = make_worker(vec![], vec![make_tool("browser", true), make_tool("filesystem", true)]);
    let result = worker.verify_tools_available(&vec!["browser".to_string(), "filesystem".to_string()]);
    assert!(result.is_ok());
}

#[test]
fn test_verify_tools_one_missing() {
    let worker = make_worker(vec![], vec![make_tool("browser", true)]);
    let result = worker.verify_tools_available(&vec!["browser".to_string(), "code_exec".to_string()]);
    assert!(result.is_err());
    assert!(result.unwrap_err().contains("code_exec"));
}

#[test]
fn test_verify_tools_one_unavailable() {
    let worker = make_worker(vec![], vec![make_tool("browser", true), make_tool("code_exec", false)]);
    let result = worker.verify_tools_available(&vec!["browser".to_string(), "code_exec".to_string()]);
    assert!(result.is_err());
    assert!(result.unwrap_err().contains("unavailable"));
}

#[test]
fn test_update_tool_availability() {
    let mut worker = make_worker(vec![], vec![make_tool("browser", true)]);
    worker.update_tool_availability("browser", false);
    let result = worker.verify_tools_available(&vec!["browser".to_string()]);
    assert!(result.is_err());
    worker.update_tool_availability("browser", true);
    let result = worker.verify_tools_available(&vec!["browser".to_string()]);
    assert!(result.is_ok());
}

#[test]
fn test_update_loaded_models() {
    let mut worker = make_worker(vec!["qwen2.5:7b"], vec![make_tool("browser", true)]);
    let workflow_id = new_id();
    let step = make_step(new_id(), Some("llama3:8b"), vec!["browser"]);
    let executor = MockSuccessExecutor { output: vec![] };
    let messages = worker.handle_execute_step(workflow_id, &step, &Vec::new(), &executor);
    assert_eq!(messages.len(), 1);
    match &messages[0] {
        AgentStepMessage::StepFailed { .. } => {},
        _ => panic!("Expected StepFailed"),
    }
    worker.update_loaded_models(vec!["qwen2.5:7b".to_string(), "llama3:8b".to_string()]);
    let messages = worker.handle_execute_step(workflow_id, &step, &Vec::new(), &executor);
    assert_eq!(messages.len(), 2);
    match &messages[0] {
        AgentStepMessage::StepStarted { .. } => {},
        _ => panic!("Expected StepStarted"),
    }
}

#[test]
fn test_step_execution_error_retryable() {
    assert!(StepExecutionError::ModelError("oom".to_string()).is_retryable());
    assert!(StepExecutionError::ToolError("crashed".to_string()).is_retryable());
    assert!(!StepExecutionError::ExecutionError("bad input".to_string()).is_retryable());
    assert!(StepExecutionError::Timeout.is_retryable());
}

#[test]
fn test_step_execution_error_display() {
    let err = StepExecutionError::ModelError("out of memory".to_string());
    assert_eq!(err.to_text(), "Model error: out of memory");
    let err = StepExecutionError::Timeout;
    assert_eq!(err.to_text(), "Step execution timed out");
}

#[test]
fn worker_unknown_tool_update_changes_nothing() {
    let mut worker = make_worker(vec![], vec![make_tool("browser", true)]);
    worker.update_tool_availability("printer", false);
    assert_eq!(worker.available_tools().len(), 1);
    assert!(worker.available_tools()[0].is_available);
}

#[test]
fn worker_tool_error_display() {
    assert_eq!(StepExecutionError::ToolError("crashed".to_string()).to_text(), "Tool error: crashed");
    assert_eq!(StepExecutionError::ExecutionError("bad".to_string()).to_text(), "Execution error: bad");
}
