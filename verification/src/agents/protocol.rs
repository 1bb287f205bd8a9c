//! Workflow state shared by the orchestrator, the worker and checkpoints.
use vstd::prelude::*;

use crate::agents::dag::{ExecutionDag, StepResult};

verus! {

/// High-level status of a workflow.
#[derive(Debug, Clone, PartialEq)]
pub enum WorkflowStatus {
    /// Steps are executing.
    Running,
    /// Execution is paused.
    Paused,
    /// Every step finished.
    Completed,
    /// The workflow failed (or was cancelled) at `failed_step`.
    Failed { failed_step: u128, reason: String },
}

/// Snapshot of a workflow's progress, for resuming after a restart.
#[derive(Debug, Clone)]
pub struct WorkflowCheckpoint {
    /// When the snapshot was taken (milliseconds since the Unix epoch).
    pub checkpointed_at_ms: i64,
    /// Results of the completed steps, by step ID.
    pub completed_step_results: Vec<(u128, StepResult)>,
    /// IDs of the steps that still have to run.
    pub pending_steps: Vec<u128>,
}

/// A workflow managed by the orchestrator.
#[derive(Debug, Clone)]
pub struct WorkflowState {
    pub workflow_id: u128,
    /// Name of the agent plan the workflow runs.
    pub agent_id: String,
    /// The node that requested the workflow (where the orchestrator runs).
    pub requesting_node: u128,
    pub dag: ExecutionDag,
    /// Start time (milliseconds since the Unix epoch).
    pub started_at_ms: i64,
    pub status: WorkflowStatus,
    /// Steps currently executing.
    pub parallel_steps_active: u32,
    pub total_steps: u32,
    pub completed_steps: u32,
    pub checkpoint: Option<WorkflowCheckpoint>,
}

/// Limits of distributed agent execution.
#[derive(Debug, Clone, Copy)]
pub struct DistributedAgentConfig {
    /// Steps that may execute at once.
    pub max_parallel_steps: u32,
    /// Steps a workflow may have when it starts.
    pub max_workflow_steps: u32,
    /// Seconds between checkpoints of a workflow.
    pub checkpoint_interval_secs: u64,
    /// Bound of the result cache, in megabytes.
    pub max_intermediate_result_mb: u64,
}

impl Default for DistributedAgentConfig {
    fn default() -> (c: Self)
        ensures
            c.max_parallel_steps == 4,
            c.max_workflow_steps == 100,
            c.checkpoint_interval_secs == 60,
            c.max_intermediate_result_mb == 100,
    {
        DistributedAgentConfig {
            max_parallel_steps: 4,
            max_workflow_steps: 100,
            checkpoint_interval_secs: 60,
            max_intermediate_result_mb: 100,
        }
    }
}

/// A tool registered on a node.
#[derive(Debug, Clone)]
pub struct ToolCapability {
    pub tool_id: String,
    pub is_available: bool,
}

/// Messages from a worker to the orchestrator about one step.
#[derive(Debug, Clone)]
pub enum AgentStepMessage {
    /// The worker began executing the step.
    StepStarted { workflow_id: u128, step_id: u128, node_id: u128 },
    /// The step finished with a result.
    StepCompleted { workflow_id: u128, step_id: u128, result: StepResult },
    /// The step failed; `retryable` tells whether another node may retry it.
    StepFailed { workflow_id: u128, step_id: u128, error: String, retryable: bool },
}

} // verus!
