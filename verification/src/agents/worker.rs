//! The step worker: checks that a dispatched step's model and tools are
//! present on this node, runs the step through a `StepExecutor`, and answers
//! the orchestrator with protocol messages.
use vstd::prelude::*;

use crate::agents::dag::{ExecutionStep, StepResult};
use crate::agents::protocol::{AgentStepMessage, ToolCapability};
use crate::text::{push_str, string_from_chars};

verus! {

/// Errors of local step execution.
#[derive(Debug, Clone, PartialEq)]
pub enum StepExecutionError {
    /// Model inference failed; another node may succeed.
    ModelError(String),
    /// A tool failed; another node may succeed.
    ToolError(String),
    /// The step itself is at fault; retrying does not help.
    ExecutionError(String),
    /// The step ran out of time; another node may succeed.
    Timeout,
}

/// Whether an error may be retried on another node.
pub open spec fn error_retryable(e: StepExecutionError) -> bool {
    !(e is ExecutionError)
}

/// The message of an execution error.
pub open spec fn execution_error_text(e: StepExecutionError) -> Seq<char> {
    match e {
        StepExecutionError::ModelError(m) => "Model error: "@ + m@,
        StepExecutionError::ToolError(m) => "Tool error: "@ + m@,
        StepExecutionError::ExecutionError(m) => "Execution error: "@ + m@,
        StepExecutionError::Timeout => "Step execution timed out"@,
    }
}

impl StepExecutionError {
    /// Whether this error may be retried on another node.
    pub fn is_retryable(&self) -> (b: bool)
        ensures
            b == error_retryable(*self),
    {
        match self {
            StepExecutionError::ModelError(_) => true,
            StepExecutionError::ToolError(_) => true,
            StepExecutionError::ExecutionError(_) => false,
            StepExecutionError::Timeout => true,
        }
    }

    /// The human-readable message of the error.
    pub fn to_text(&self) -> (s: String)
        ensures
            s@ == execution_error_text(*self),
    {
        let mut out: Vec<char> = Vec::new();
        match self {
            StepExecutionError::ModelError(m) => {
                push_str(&mut out, "Model error: ");
                push_str(&mut out, m.as_str());
            },
            StepExecutionError::ToolError(m) => {
                push_str(&mut out, "Tool error: ");
                push_str(&mut out, m.as_str());
            },
            StepExecutionError::ExecutionError(m) => {
                push_str(&mut out, "Execution error: ");
                push_str(&mut out, m.as_str());
            },
            StepExecutionError::Timeout => {
                push_str(&mut out, "Step execution timed out");
            },
        }
        string_from_chars(&out)
    }
}

/// Runs a step on this node (model inference and tool calls). Implemented by
/// the node's runtime; the worker only checks resources and reports.
pub trait StepExecutor {
    /// Whether `outcome` is what running `step` on `input_data` gives, as
    /// the executor defines it (an executor that says nothing allows every
    /// outcome).
    open spec fn executes(
        &self,
        step: ExecutionStep,
        input_data: Seq<(u128, Vec<u8>)>,
        outcome: Result<Vec<u8>, StepExecutionError>,
    ) -> bool {
        true
    }

    /// Runs `step` on the outputs of its completed dependencies, given as
    /// (step ID, output) pairs, and returns the step's output.
    fn execute(&self, step: &ExecutionStep, input_data: &Vec<(u128, Vec<u8>)>) -> (r: Result<Vec<u8>, StepExecutionError>)
        ensures
            self.executes(*step, input_data@, r),
    ;
}

/// The worker on one node: its ID, the models it has loaded and its tools.
pub struct StepWorker {
    node_id: u128,
    loaded_models: Vec<String>,
    available_tools: Vec<ToolCapability>,
}

/// What the worker knows: node ID, loaded models, tools as (ID, available).
pub struct WorkerView {
    pub node_id: u128,
    pub loaded_models: Seq<Seq<char>>,
    pub tools: Seq<(Seq<char>, bool)>,
}

/// The index of the first tool with the given ID, if any.
pub open spec fn tool_index(tools: Seq<(Seq<char>, bool)>, id: Seq<char>) -> Option<int> {
    if exists|i: int|
        0 <= i < tools.len() && (#[trigger] tools[i]).0 == id && forall|j: int| 0 <= j < i ==> (#[trigger] tools[j]).0 != id {
        Some(choose|i: int|
            0 <= i < tools.len() && (#[trigger] tools[i]).0 == id && forall|j: int| 0 <= j < i ==> (#[trigger] tools[j]).0 != id)
    } else {
        None
    }
}

/// The index of the first required tool that is not usable, if any.
pub open spec fn first_missing_tool(tools: Seq<(Seq<char>, bool)>, ids: Seq<Seq<char>>) -> Option<int> {
    if exists|k: int| 0 <= k < ids.len() && !tool_usable(tools, #[trigger] ids[k]) {
        Some(choose|k: int|
            0 <= k < ids.len() && !tool_usable(tools, #[trigger] ids[k]) && forall|j: int| 0 <= j < k ==> tool_usable(tools, #[trigger] ids[j]))
    } else {
        None
    }
}

/// The first registered tool with that ID is available.
pub open spec fn tool_usable(tools: Seq<(Seq<char>, bool)>, id: Seq<char>) -> bool {
    match tool_index(tools, id) {
        Some(i) => tools[i].1,
        None => false,
    }
}

/// The answer of the tool check: nothing when every tool is usable, else
/// the message about the first tool that is not.
pub open spec fn tool_check(tools: Seq<(Seq<char>, bool)>, ids: Seq<Seq<char>>) -> Result<(), Seq<char>> {
    match first_missing_tool(tools, ids) {
        None => Ok(()),
        Some(k) => Err(
            if tool_index(tools, ids[k]) is None {
                "Tool '"@ + ids[k] + "' not found in local registry"@
            } else {
                "Tool '"@ + ids[k] + "' is registered but currently unavailable"@
            },
        ),
    }
}

/// The answer of the model check.
pub open spec fn model_check(models: Seq<Seq<char>>, required: Option<Seq<char>>) -> Result<(), Seq<char>> {
    match required {
        Some(m) => if models.contains(m) {
            Ok(())
        } else {
            Err("Model '"@ + m + "' no longer loaded"@)
        },
        None => Ok(()),
    }
}

/// The texts of a list of strings.
pub open spec fn string_views(v: Seq<String>) -> Seq<Seq<char>> {
    v.map_values(|s: String| s@)
}

/// The model a step requires, as text.
pub open spec fn required_model_view(step: ExecutionStep) -> Option<Seq<char>> {
    match step.required_model {
        Some(m) => Some(m@),
        None => None,
    }
}

/// The message that reports the outcome of executing a step.
pub open spec fn outcome_message(
    node_id: u128,
    workflow_id: u128,
    step: ExecutionStep,
    outcome: Result<Vec<u8>, StepExecutionError>,
    msg: AgentStepMessage,
) -> bool {
    match outcome {
        Ok(out) => msg matches AgentStepMessage::StepCompleted { workflow_id: w, step_id: s, result } && w == workflow_id
            && s == step.step_id && result.step_id == step.step_id && result.output_data@ == out@
            && result.output_size_bytes == out@.len() && result.execution_node == node_id && result.compute_time_ms == 0
            && result.model_used == step.required_model && result.tools_used@ == step.required_tools@,
        Err(e) => msg matches AgentStepMessage::StepFailed { workflow_id: w, step_id: s, error, retryable } && w
            == workflow_id && s == step.step_id && error@ == execution_error_text(e) && retryable == error_retryable(e),
    }
}

/// A retryable failure report with the given message.
pub open spec fn is_retryable_failure(workflow_id: u128, step: ExecutionStep, text: Seq<char>, msg: AgentStepMessage) -> bool {
    msg matches AgentStepMessage::StepFailed { workflow_id: w, step_id: s, error, retryable } && w == workflow_id && s
        == step.step_id && error@ == text && retryable
}

impl StepWorker {
    /// The worker's state as plain values.
    pub closed spec fn view(&self) -> WorkerView {
        WorkerView {
            node_id: self.node_id,
            loaded_models: string_views(self.loaded_models@),
            tools: self.available_tools@.map_values(|t: ToolCapability| (t.tool_id@, t.is_available)),
        }
    }

    /// A worker for the given node, models and tools.
    pub fn new(node_id: u128, loaded_models: Vec<String>, available_tools: Vec<ToolCapability>) -> (w: Self)
        ensures
            w@.node_id == node_id,
            w@.loaded_models == string_views(loaded_models@),
            w@.tools == available_tools@.map_values(|t: ToolCapability| (t.tool_id@, t.is_available)),
    {
        StepWorker { node_id, loaded_models, available_tools }
    }

    /// Handles a dispatched step: a missing model or tool answers with one
    /// retryable failure; otherwise the executor runs the step on
    /// `input_data` once and the answer is "started" followed by the message
    /// reporting what the executor returned.
    pub fn handle_execute_step<E: StepExecutor>(
        &self,
        workflow_id: u128,
        step: &ExecutionStep,
        input_data: &Vec<(u128, Vec<u8>)>,
        executor: &E,
    ) -> (msgs: Vec<AgentStepMessage>)
        ensures
            model_check(self@.loaded_models, required_model_view(*step)) matches Err(t) ==> msgs@.len() == 1
                && is_retryable_failure(workflow_id, *step, t, msgs@[0]),
            model_check(self@.loaded_models, required_model_view(*step)) is Ok ==> (tool_check(
                self@.tools,
                string_views(step.required_tools@),
            ) matches Err(t) ==> msgs@.len() == 1 && is_retryable_failure(workflow_id, *step, t, msgs@[0])),
            model_check(self@.loaded_models, required_model_view(*step)) is Ok
                && tool_check(self@.tools, string_views(step.required_tools@)) is Ok ==> {
                &&& msgs@.len() == 2
                &&& msgs@[0] == AgentStepMessage::StepStarted { workflow_id, step_id: step.step_id, node_id: self@.node_id }
                &&& exists|o: Result<Vec<u8>, StepExecutionError>|
                    #[trigger] executor.executes(*step, input_data@, o) && outcome_message(self@.node_id, workflow_id, *step, o, msgs@[1])
            },
    {
        let mut messages: Vec<AgentStepMessage> = Vec::new();
        match self.verify_model_available(step) {
            Err(error) => {
                messages.push(AgentStepMessage::StepFailed { workflow_id, step_id: step.step_id, error, retryable: true });
                return messages;
            },
            Ok(()) => {},
        }
        match self.verify_tools_available(&step.required_tools) {
            Err(error) => {
                messages.push(AgentStepMessage::StepFailed { workflow_id, step_id: step.step_id, error, retryable: true });
                return messages;
            },
            Ok(()) => {},
        }
        messages.push(AgentStepMessage::StepStarted { workflow_id, step_id: step.step_id, node_id: self.node_id });
        let outcome = executor.execute(step, input_data);
        let ghost o = outcome;
        let m = self.outcome_message(workflow_id, step, outcome);
        messages.push(m);
        assert(outcome_message(self@.node_id, workflow_id, *step, o, messages@[1]));
        messages
    }

    /// The message reporting the outcome of executing `step`: its result
    /// on success, a failure carrying the error's message and retryability
    /// otherwise.
    pub fn outcome_message(
        &self,
        workflow_id: u128,
        step: &ExecutionStep,
        outcome: Result<Vec<u8>, StepExecutionError>,
    ) -> (m: AgentStepMessage)
        ensures
            outcome_message(self@.node_id, workflow_id, *step, outcome, m),
    {
        match outcome {
            Ok(output_data) => {
                let output_size_bytes = output_data.len() as u64;
                let result = StepResult {
                    step_id: step.step_id,
                    output_data,
                    output_size_bytes,
                    execution_node: self.node_id,
                    compute_time_ms: 0,
                    model_used: step.required_model.clone(),
                    tools_used: step.required_tools.clone(),
                };
                AgentStepMessage::StepCompleted { workflow_id, step_id: step.step_id, result }
            },
            Err(e) => {
                let error = e.to_text();
                let retryable = e.is_retryable();
                AgentStepMessage::StepFailed { workflow_id, step_id: step.step_id, error, retryable }
            },
        }
    }

    /// Checks that the model the step requires, if any, is loaded.
    fn verify_model_available(&self, step: &ExecutionStep) -> (r: Result<(), String>)
        ensures
            match model_check(self@.loaded_models, required_model_view(*step)) {
                Ok(()) => r is Ok,
                Err(t) => r matches Err(s) && s@ == t,
            },
    {
        match &step.required_model {
            Some(model_id) => {
                let mut i: usize = 0;
                while i < self.loaded_models.len()
                    invariant
                        i <= self.loaded_models@.len(),
                        step.required_model == Some(*model_id),
                        forall|j: int| 0 <= j < i ==> self.loaded_models@[j]@ != model_id@,
                    decreases self.loaded_models.len() - i,
                {
                    if self.loaded_models[i] == *model_id {
                        proof {
                            assert(string_views(self.loaded_models@)[i as int] == model_id@);
                            assert(self@.loaded_models.contains(model_id@));
                            assert(step.required_model == Some(*model_id));
                            assert(required_model_view(*step) == Some(model_id@));
                        }
                        return Ok(());
                    }
                    i = i + 1;
                }
                proof {
                    if string_views(self.loaded_models@).contains(model_id@) {
                        let k = choose|k: int| 0 <= k < string_views(self.loaded_models@).len() && string_views(self.loaded_models@)[k] == model_id@;
                        assert(self.loaded_models@[k]@ == model_id@);
                    }
                }
                let mut out: Vec<char> = Vec::new();
                push_str(&mut out, "Model '");
                push_str(&mut out, model_id.as_str());
                push_str(&mut out, "' no longer loaded");
                Err(string_from_chars(&out))
            },
            None => Ok(()),
        }
    }

    proof fn lemma_tools_view(&self)
        ensures
            self@.tools.len() == self.available_tools@.len(),
            forall|i: int| 0 <= i < self@.tools.len() ==> #[trigger] self@.tools[i] == (self.available_tools@[i].tool_id@, self.available_tools@[i].is_available),
    {
    }

    /// Position of the first tool registered under `id`, if any.
    fn find_tool(&self, id: &String) -> (r: Option<usize>)
        ensures
            r matches Some(j) ==> tool_index(self@.tools, id@) == Some(j as int) && j < self.available_tools@.len(),
            r is None ==> tool_index(self@.tools, id@) is None,
    {
        proof {
            self.lemma_tools_view();
        }
        let ghost tools = self@.tools;
        let mut i: usize = 0;
        while i < self.available_tools.len()
            invariant
                tools == self@.tools,
                i <= tools.len(),
                tools.len() == self.available_tools@.len(),
                forall|j: int| 0 <= j < i ==> (#[trigger] tools[j]).0 != id@,
            decreases self.available_tools.len() - i,
        {
            assert(tools[i as int] == (self.available_tools@[i as int].tool_id@, self.available_tools@[i as int].is_available));
            if self.available_tools[i].tool_id == *id {
                proof {
                    let k = choose|k: int|
                        0 <= k < tools.len() && (#[trigger] tools[k]).0 == id@ && forall|j: int| 0 <= j < k ==> (#[trigger] tools[j]).0 != id@;
                    assert(k == i) by {
                        if k < i {
                        } else if k > i {
                            assert(tools[i as int].0 == id@);
                        }
                    }
                }
                return Some(i);
            }
            i = i + 1;
        }
        None
    }

    /// Checks that every tool in `tool_ids` is registered and available;
    /// otherwise reports the first that is not.
    pub fn verify_tools_available(&self, tool_ids: &Vec<String>) -> (r: Result<(), String>)
        ensures
            match tool_check(self@.tools, string_views(tool_ids@)) {
                Ok(()) => r is Ok,
                Err(t) => r matches Err(s) && s@ == t,
            },
    {
        let ghost ids = string_views(tool_ids@);
        let ghost tools = self@.tools;
        let mut k: usize = 0;
        while k < tool_ids.len()
            invariant
                ids == string_views(tool_ids@),
                tools == self@.tools,
                k <= tool_ids@.len(),
                forall|j: int| 0 <= j < k ==> tool_usable(tools, #[trigger] ids[j]),
            decreases tool_ids.len() - k,
        {
            let id = &tool_ids[k];
            assert(ids[k as int] == id@);
            proof {
                self.lemma_tools_view();
            }
            match self.find_tool(id) {
                None => {
                    proof {
                        lemma_first_missing(tools, ids, k as int);
                    }
                    let mut out: Vec<char> = Vec::new();
                    push_str(&mut out, "Tool '");
                    push_str(&mut out, id.as_str());
                    push_str(&mut out, "' not found in local registry");
                    return Err(string_from_chars(&out));
                },
                Some(i) => {
                    assert(tool_index(tools, ids[k as int]) == Some(i as int));
                    assert(tools[i as int] == self@.tools[i as int]);
                    assert(tools[i as int].1 == self.available_tools@[i as int].is_available);
                    if !self.available_tools[i].is_available {
                        proof {
                            lemma_first_missing(tools, ids, k as int);
                        }
                        let mut out: Vec<char> = Vec::new();
                        push_str(&mut out, "Tool '");
                        push_str(&mut out, id.as_str());
                        push_str(&mut out, "' is registered but currently unavailable");
                        return Err(string_from_chars(&out));
                    }
                    assert(tool_usable(tools, ids[k as int]));
                },
            }
            k = k + 1;
        }
        Ok(())
    }

    /// Replaces the list of loaded models.
    pub fn update_loaded_models(&mut self, models: Vec<String>)
        ensures
            final(self)@.loaded_models == string_views(models@),
            final(self)@.node_id == old(self)@.node_id,
            final(self)@.tools == old(self)@.tools,
    {
        self.loaded_models = models;
    }

    /// Sets the availability of the first tool registered under `tool_id`;
    /// an unknown tool changes nothing.
    #[verifier::rlimit(30)]
    pub fn update_tool_availability(&mut self, tool_id: &str, available: bool)
        ensures
            final(self)@.node_id == old(self)@.node_id,
            final(self)@.loaded_models == old(self)@.loaded_models,
            final(self)@.tools == match tool_index(old(self)@.tools, tool_id@) {
                Some(i) => old(self)@.tools.update(i, (tool_id@, available)),
                None => old(self)@.tools,
            },
    {
        let id = crate::text::owned(tool_id);
        proof {
            self.lemma_tools_view();
        }
        match self.find_tool(&id) {
            Some(i) => {
                let tid = self.available_tools[i].tool_id.clone();
                let t = ToolCapability { tool_id: tid, is_available: available };
                let ghost before = self.available_tools@;
                assert(tool_index(old(self)@.tools, tool_id@) == Some(i as int));
                proof {
                    lemma_tool_index(old(self)@.tools, tool_id@);
                }
                assert(old(self)@.tools[i as int] == (before[i as int].tool_id@, before[i as int].is_available));
                self.available_tools.set(i, t);
                proof {
                    self.lemma_tools_view();
                    assert(self@.tools =~= old(self)@.tools.update(i as int, (tool_id@, available))) by {
                        assert forall|j: int| 0 <= j < self@.tools.len() implies self@.tools[j] == old(self)@.tools.update(i as int, (tool_id@, available))[j] by {
                            if j != i {
                                assert(self.available_tools@[j] == before[j]);
                                assert(old(self)@.tools[j] == (before[j].tool_id@, before[j].is_available));
                            } else {
                                assert(self.available_tools@[j] == t);
                            }
                        }
                    }
                }
            },
            None => {},
        }
    }

    /// This worker's node ID.
    pub fn node_id(&self) -> (n: u128)
        ensures
            n == self@.node_id,
    {
        self.node_id
    }

    /// The loaded models.
    pub fn loaded_models(&self) -> (m: &Vec<String>)
        ensures
            string_views(m@) == self@.loaded_models,
    {
        &self.loaded_models
    }

    /// The registered tools.
    pub fn available_tools(&self) -> (t: &Vec<ToolCapability>)
        ensures
            t@.map_values(|t: ToolCapability| (t.tool_id@, t.is_available)) == self@.tools,
    {
        &self.available_tools
    }
}

proof fn lemma_tool_index(tools: Seq<(Seq<char>, bool)>, id: Seq<char>)
    ensures
        tool_index(tools, id) matches Some(i) ==> 0 <= i < tools.len() && tools[i].0 == id,
{
}

/// If the tools before `k` are usable and the one at `k` is not, `k` is the
/// first missing tool.
proof fn lemma_first_missing(tools: Seq<(Seq<char>, bool)>, ids: Seq<Seq<char>>, k: int)
    requires
        0 <= k < ids.len(),
        forall|j: int| 0 <= j < k ==> tool_usable(tools, #[trigger] ids[j]),
        !tool_usable(tools, ids[k]),
    ensures
        first_missing_tool(tools, ids) == Some(k),
{
    let c = choose|c: int|
        0 <= c < ids.len() && !tool_usable(tools, #[trigger] ids[c]) && forall|j: int| 0 <= j < c ==> tool_usable(tools, #[trigger] ids[j]);
    if c < k {
    } else if c > k {
        assert(tool_usable(tools, ids[k]));
    }
}

} // verus!
