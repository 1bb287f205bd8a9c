//! Workflow checkpoints: what a snapshot of a DAG holds, when a workflow is
//! due for a new one, and how checkpoint files are named and recognised.
//! Reading and writing the files is done by the caller.
use vstd::prelude::*;

use crate::agents::dag::{copy_opt_string, copy_strings, ExecutionDag, ExecutionStep, StepResult, StepStatus};
use crate::agents::protocol::WorkflowCheckpoint;
use crate::clock::{now_millis_u64, now_unix_millis};
use crate::ids::{lemma_hyphenated_reads_back, parse_uuid, uuid_hyphenated, uuid_parse_result, uuid_string};
use crate::paths::{join_path, last_dot, split_stem_extension, stem_and_extension, string_join_path};
use crate::text::{chars_eq_str, chars_of, push_str, string_from_chars};

verus! {

/// Errors of checkpoint operations.
#[derive(Debug, Clone, PartialEq)]
pub enum CheckpointError {
    /// Reading or writing a checkpoint file failed.
    IoError(String),
    /// A checkpoint could not be encoded or decoded.
    SerializationError(String),
    /// No checkpoint exists for the workflow.
    NotFound(u128),
}

/// The message of a checkpoint error.
pub open spec fn checkpoint_error_text(e: CheckpointError) -> Seq<char> {
    match e {
        CheckpointError::IoError(m) => "Checkpoint I/O error: "@ + m@,
        CheckpointError::SerializationError(m) => "Checkpoint serialization error: "@ + m@,
        CheckpointError::NotFound(id) => "No checkpoint found for workflow "@ + uuid_hyphenated(id),
    }
}

impl CheckpointError {
    /// The human-readable message of the error.
    pub fn to_text(&self) -> (s: String)
        ensures
            s@ == checkpoint_error_text(*self),
    {
        let mut out: Vec<char> = Vec::new();
        match self {
            CheckpointError::IoError(m) => {
                push_str(&mut out, "Checkpoint I/O error: ");
                push_str(&mut out, m.as_str());
            },
            CheckpointError::SerializationError(m) => {
                push_str(&mut out, "Checkpoint serialization error: ");
                push_str(&mut out, m.as_str());
            },
            CheckpointError::NotFound(id) => {
                push_str(&mut out, "No checkpoint found for workflow ");
                push_str(&mut out, uuid_string(*id).as_str());
            },
        }
        string_from_chars(&out)
    }
}

// ─── Snapshot contents ──────────────────────────────────────────────────────

/// Two step results carry the same values.
pub open spec fn same_result(a: StepResult, b: StepResult) -> bool {
    &&& a.step_id == b.step_id
    &&& a.output_data@ == b.output_data@
    &&& a.output_size_bytes == b.output_size_bytes
    &&& a.execution_node == b.execution_node
    &&& a.compute_time_ms == b.compute_time_ms
    &&& a.model_used == b.model_used
    &&& a.tools_used@ == b.tools_used@
}

/// The (step ID, result) pairs of the completed steps that have a result,
/// in step order.
pub open spec fn completed_results(steps: Seq<ExecutionStep>) -> Seq<(u128, StepResult)>
    decreases steps.len(),
{
    if steps.len() == 0 {
        Seq::empty()
    } else {
        let r = completed_results(steps.drop_last());
        let s = steps.last();
        if s.status is Completed && s.result is Some {
            r.push((s.step_id, s.result.unwrap()))
        } else {
            r
        }
    }
}

/// Whether a step is still to run: pending, ready, dispatched or running.
/// Completed steps are done; failed and cancelled ones are not pending but
/// are looked at again on resume.
pub open spec fn is_unfinished(status: StepStatus) -> bool {
    status is Pending || status is Ready || status is Dispatched || status is Running
}

/// The IDs of the steps still to run, in step order.
pub open spec fn pending_ids(steps: Seq<ExecutionStep>) -> Seq<u128>
    decreases steps.len(),
{
    if steps.len() == 0 {
        Seq::empty()
    } else {
        let r = pending_ids(steps.drop_last());
        let s = steps.last();
        if is_unfinished(s.status) {
            r.push(s.step_id)
        } else {
            r
        }
    }
}

/// The snapshot `cp` holds the completed results and the pending steps of
/// `steps`.
pub open spec fn snapshot_of(cp: WorkflowCheckpoint, steps: Seq<ExecutionStep>) -> bool {
    &&& cp.completed_step_results@.len() == completed_results(steps).len()
    &&& forall|i: int|
        0 <= i < completed_results(steps).len() ==> (#[trigger] cp.completed_step_results@[i]).0 == completed_results(steps)[i].0
            && same_result(cp.completed_step_results@[i].1, completed_results(steps)[i].1)
    &&& cp.pending_steps@ == pending_ids(steps)
}

/// A copy of a byte vector.
pub fn copy_bytes(v: &Vec<u8>) -> (r: Vec<u8>)
    ensures
        r@ == v@,
{
    let mut r: Vec<u8> = Vec::new();
    let mut i: usize = 0;
    while i < v.len()
        invariant
            i <= v.len(),
            r@ == v@.take(i as int),
        decreases v.len() - i,
    {
        r.push(v[i]);
        i = i + 1;
        assert(v@.take(i as int) =~= v@.take(i - 1).push(v@[i - 1]));
    }
    assert(v@.take(i as int) =~= v@);
    r
}

/// A copy of a step result.
pub fn copy_result(r: &StepResult) -> (c: StepResult)
    ensures
        same_result(c, *r),
{
    StepResult {
        step_id: r.step_id,
        output_data: copy_bytes(&r.output_data),
        output_size_bytes: r.output_size_bytes,
        execution_node: r.execution_node,
        compute_time_ms: r.compute_time_ms,
        model_used: copy_opt_string(&r.model_used),
        tools_used: copy_strings(&r.tools_used),
    }
}

/// The snapshot of a DAG taken at `now_ms`: results of the completed steps
/// and IDs of the steps still to run (pending, ready, dispatched or
/// running); failed and cancelled steps are in neither list.
pub fn build_checkpoint_at(dag: &ExecutionDag, now_ms: i64) -> (cp: WorkflowCheckpoint)
    ensures
        snapshot_of(cp, dag.steps@),
        cp.checkpointed_at_ms == now_ms,
{
    let steps = &dag.steps;
    let mut completed: Vec<(u128, StepResult)> = Vec::new();
    let mut pending: Vec<u128> = Vec::new();
    let mut i: usize = 0;
    while i < steps.len()
        invariant
            i <= steps@.len(),
            completed@.len() == completed_results(steps@.take(i as int)).len(),
            forall|k: int|
                0 <= k < completed_results(steps@.take(i as int)).len() ==> (#[trigger] completed@[k]).0
                    == completed_results(steps@.take(i as int))[k].0 && same_result(
                    completed@[k].1,
                    completed_results(steps@.take(i as int))[k].1,
                ),
            pending@ == pending_ids(steps@.take(i as int)),
        decreases steps.len() - i,
    {
        let ghost prev = steps@.take(i as int);
        let ghost next = steps@.take(i + 1);
        assert(next.drop_last() =~= prev);
        assert(next.last() == steps@[i as int]);
        let step = &steps[i];
        match &step.status {
            StepStatus::Completed => {
                match &step.result {
                    Some(r) => {
                        let c = copy_result(r);
                        completed.push((step.step_id, c));
                        proof {
                            assert forall|k: int| 0 <= k < completed_results(next).len() implies (#[trigger] completed@[k]).0
                                == completed_results(next)[k].0 && same_result(completed@[k].1, completed_results(next)[k].1) by {
                                if k < completed_results(prev).len() {
                                    assert(completed_results(next)[k] == completed_results(prev)[k]);
                                }
                            }
                        }
                    },
                    None => {},
                }
            },
            StepStatus::Pending | StepStatus::Ready | StepStatus::Dispatched | StepStatus::Running => {
                pending.push(step.step_id);
            },
            StepStatus::Failed { .. } | StepStatus::Cancelled => {},
        }
        i = i + 1;
    }
    assert(steps@.take(i as int) =~= steps@);
    WorkflowCheckpoint { checkpointed_at_ms: now_ms, completed_step_results: completed, pending_steps: pending }
}

// ─── File names ─────────────────────────────────────────────────────────────

/// The workflow a checkpoint file belongs to: a `.json` file whose stem is a
/// UUID.
pub open spec fn workflow_of_file(name: Seq<char>) -> Option<u128> {
    let (stem, ext) = stem_and_extension(name);
    if ext == Some("json"@) {
        uuid_parse_result(stem)
    } else {
        None
    }
}

/// The workflows of the checkpoint files among `names`, in order.
pub open spec fn workflows_of_files(names: Seq<Seq<char>>) -> Seq<u128>
    decreases names.len(),
{
    if names.len() == 0 {
        Seq::empty()
    } else {
        let r = workflows_of_files(names.drop_last());
        match workflow_of_file(names.last()) {
            Some(id) => r.push(id),
            None => r,
        }
    }
}

/// The file name of a workflow's checkpoint: `<workflow UUID>.json`.
pub fn checkpoint_file_name(workflow_id: u128) -> (s: String)
    ensures
        s@ == uuid_hyphenated(workflow_id) + ".json"@,
        workflow_of_file(s@) == Some(workflow_id),
{
    let mut out: Vec<char> = Vec::new();
    let id = uuid_string(workflow_id);
    push_str(&mut out, id.as_str());
    push_str(&mut out, ".json");
    proof {
        lemma_checkpoint_name_split(workflow_id);
        lemma_hyphenated_reads_back(workflow_id);
    }
    string_from_chars(&out)
}

/// The name `<UUID>.json` splits into the UUID text and the `json`
/// extension.
proof fn lemma_checkpoint_name_split(workflow_id: u128)
    ensures
        stem_and_extension(uuid_hyphenated(workflow_id) + ".json"@) == (uuid_hyphenated(workflow_id), Some("json"@)),
{
    reveal_strlit(".json");
    reveal_strlit("json");
    reveal_strlit("..");
    let u = uuid_hyphenated(workflow_id);
    let s = u + ".json"@;
    assert(s.len() == 41);
    assert(s.drop_last() =~= s.take(40));
    assert(s.take(40).drop_last() =~= s.take(39));
    assert(s.take(39).drop_last() =~= s.take(38));
    assert(s.take(38).drop_last() =~= s.take(37));
    assert(s[40] == 'n' && s[39] == 'o' && s[38] == 's' && s[37] == 'j' && s[36] == '.');
    assert(s.take(37).last() == '.');
    assert(last_dot(s.take(37)) == Some(36int));
    assert(last_dot(s.take(38)) == Some(36int));
    assert(last_dot(s.take(39)) == Some(36int));
    assert(last_dot(s.take(40)) == Some(36int));
    assert(last_dot(s) == Some(36int));
    assert(s != ".."@);
    assert(s.take(36) =~= u);
    assert(s.skip(37) =~= "json"@);
}

/// Checkpoint files are recognised: the names of the checkpoint files of
/// some workflows list exactly those workflows, in order.
pub proof fn law_checkpoint_files_listed(ids: Seq<u128>)
    ensures
        workflows_of_files(ids.map_values(|id: u128| uuid_hyphenated(id) + ".json"@)) == ids,
    decreases ids.len(),
{
    let names = ids.map_values(|id: u128| uuid_hyphenated(id) + ".json"@);
    if ids.len() > 0 {
        let front = ids.drop_last();
        law_checkpoint_files_listed(front);
        lemma_hyphenated_reads_back(ids.last());
        assert(names.drop_last() =~= front.map_values(|id: u128| uuid_hyphenated(id) + ".json"@));
        lemma_checkpoint_name_split(ids.last());
        assert(names.last() == uuid_hyphenated(ids.last()) + ".json"@);
        assert(ids[ids.len() - 1] == ids.last());
        assert(workflow_of_file(names.last()) == Some(ids.last()));
        assert(ids =~= front.push(ids.last()));
    } else {
        assert(names =~= Seq::<Seq<char>>::empty());
    }
}

/// The workflow whose checkpoint a file is, if it is one.
pub fn workflow_from_file_name(name: &str) -> (r: Option<u128>)
    ensures
        r == workflow_of_file(name@),
{
    let v = chars_of(name);
    let (stem, ext) = split_stem_extension(&v);
    match ext {
        None => None,
        Some(e) => {
            if chars_eq_str(&e, "json") {
                let s = string_from_chars(&stem);
                parse_uuid(s.as_str())
            } else {
                None
            }
        },
    }
}

/// The workflows of the checkpoint files among the names of a directory's
/// entries, in order; other files are ignored.
pub fn incomplete_workflows(names: &Vec<String>) -> (r: Vec<u128>)
    ensures
        r@ == workflows_of_files(names@.map_values(|s: String| s@)),
{
    let ghost views = names@.map_values(|s: String| s@);
    let mut r: Vec<u128> = Vec::new();
    let mut i: usize = 0;
    while i < names.len()
        invariant
            i <= names@.len(),
            views == names@.map_values(|s: String| s@),
            r@ == workflows_of_files(views.take(i as int)),
        decreases names.len() - i,
    {
        let ghost next = views.take(i + 1);
        assert(next.drop_last() =~= views.take(i as int));
        assert(next.last() == names@[i as int]@);
        match workflow_from_file_name(names[i].as_str()) {
            Some(id) => {
                r.push(id);
            },
            None => {},
        }
        i = i + 1;
    }
    assert(views.take(i as int) =~= views);
    r
}

// ─── When to checkpoint ─────────────────────────────────────────────────────

/// The time of the last checkpoint of each workflow, from a log of
/// (workflow, time) records in which later records win.
pub open spec fn last_times(log: Seq<(u128, u64)>) -> Map<u128, u64>
    decreases log.len(),
{
    if log.len() == 0 {
        Map::empty()
    } else {
        last_times(log.drop_last()).insert(log.last().0, log.last().1)
    }
}

/// Whether a workflow last checkpointed at `last` (if ever) is due at
/// `now_ms`, with checkpoints at least `interval_secs` apart.
pub open spec fn due(last: Option<u64>, now_ms: u64, interval_secs: u64) -> bool {
    match last {
        Some(t) => now_ms - t >= interval_secs * 1000,
        None => true,
    }
}

/// The last checkpoint time of a workflow in a map of them, if any.
pub open spec fn last_of(last: Map<u128, u64>, workflow_id: u128) -> Option<u64> {
    if last.contains_key(workflow_id) {
        Some(last[workflow_id])
    } else {
        None
    }
}

/// Tracks, for each workflow, when it was last checkpointed, and where
/// checkpoint files go.
pub struct CheckpointManager {
    checkpoint_dir: String,
    interval_secs: u64,
    last_checkpoint: Vec<(u128, u64)>,
}

impl CheckpointManager {
    /// Last checkpoint time of each workflow (milliseconds since the epoch).
    pub closed spec fn last_view(&self) -> Map<u128, u64> {
        last_times(self.last_checkpoint@)
    }

    /// Seconds that must pass between two checkpoints of a workflow.
    pub closed spec fn interval_view(&self) -> u64 {
        self.interval_secs
    }

    /// The directory of the checkpoint files.
    pub closed spec fn dir_view(&self) -> Seq<char> {
        self.checkpoint_dir@
    }

    /// A manager writing into `checkpoint_dir`, with checkpoints of a
    /// workflow at least `interval_secs` apart.
    pub fn new(checkpoint_dir: String, interval_secs: u64) -> (m: Self)
        ensures
            m.last_view() == Map::<u128, u64>::empty(),
            m.interval_view() == interval_secs,
            m.dir_view() == checkpoint_dir@,
    {
        CheckpointManager { checkpoint_dir, interval_secs, last_checkpoint: Vec::new() }
    }

    /// The directory of the checkpoint files.
    pub fn checkpoint_dir(&self) -> (d: &str)
        ensures
            d@ == self.dir_view(),
    {
        self.checkpoint_dir.as_str()
    }

    /// The time of the last checkpoint of a workflow, if any.
    pub fn last_checkpoint_of(&self, workflow_id: u128) -> (r: Option<u64>)
        ensures
            r == (if self.last_view().contains_key(workflow_id) {
                Some(self.last_view()[workflow_id])
            } else {
                None
            }),
    {
        let log = &self.last_checkpoint;
        let mut i: usize = log.len();
        assert(log@.take(log@.len() as int) =~= log@);
        while i > 0
            invariant
                i <= log@.len(),
                log@ == self.last_checkpoint@,
                forall|j: int| i <= j < log@.len() ==> (#[trigger] log@[j]).0 != workflow_id,
                last_times(log@).contains_key(workflow_id) == last_times(log@.take(i as int)).contains_key(workflow_id),
                last_times(log@).contains_key(workflow_id) ==> last_times(log@)[workflow_id] == last_times(
                    log@.take(i as int),
                )[workflow_id],
            decreases i,
        {
            let ghost t = log@.take(i as int);
            assert(t.drop_last() =~= log@.take(i - 1));
            assert(t.last() == log@[i - 1]);
            if log[i - 1].0 == workflow_id {
                assert(last_times(t) == last_times(t.drop_last()).insert(t.last().0, t.last().1));
                assert(last_times(t).contains_key(workflow_id) && last_times(t)[workflow_id] == log@[i - 1].1);
                assert(self.last_view() == last_times(log@));
                assert(self.last_view().contains_key(workflow_id));
                assert(self.last_view()[workflow_id] == log@[i - 1].1);
                return Some(log[i - 1].1);
            }
            i = i - 1;
        }
        assert(log@.take(0) =~= Seq::<(u128, u64)>::empty());
        None
    }

    /// Whether the workflow is due for a checkpoint at `now_ms`: never
    /// checkpointed, or at least the interval since its last checkpoint.
    pub fn should_checkpoint_at(&self, workflow_id: u128, now_ms: u64) -> (b: bool)
        ensures
            b == due(
                if self.last_view().contains_key(workflow_id) {
                    Some(self.last_view()[workflow_id])
                } else {
                    None
                },
                now_ms,
                self.interval_view(),
            ),
    {
        match self.last_checkpoint_of(workflow_id) {
            Some(t) => {
                let elapsed: u128 = if now_ms >= t {
                    (now_ms - t) as u128
                } else {
                    0
                };
                let ghost gap: int = now_ms - t;
                proof {
                    if now_ms < t {
                        assert(gap < 0);
                    }
                }
                if now_ms < t {
                    false
                } else {
                    elapsed >= (self.interval_secs as u128) * 1000
                }
            },
            None => true,
        }
    }

    /// Whether the workflow is due for a checkpoint now: the test of
    /// `should_checkpoint_at` at the clock's reading. A workflow never
    /// checkpointed is always due; otherwise the answer depends on the clock.
    pub fn should_checkpoint(&self, workflow_id: u128) -> (b: bool)
        ensures
            !self.last_view().contains_key(workflow_id) ==> b,
            exists|now_ms: u64|
                b == #[trigger] due(last_of(self.last_view(), workflow_id), now_ms, self.interval_view()),
    {
        let now = now_millis_u64();
        self.should_checkpoint_at(workflow_id, now)
    }

    /// Drops the records of a workflow from the log.
    fn drop_records(log: &Vec<(u128, u64)>, workflow_id: u128) -> (r: Vec<(u128, u64)>)
        ensures
            last_times(r@) == last_times(log@).remove(workflow_id),
    {
        let mut r: Vec<(u128, u64)> = Vec::new();
        let mut i: usize = 0;
        while i < log.len()
            invariant
                i <= log@.len(),
                last_times(r@) == last_times(log@.take(i as int)).remove(workflow_id),
            decreases log.len() - i,
        {
            let ghost t = log@.take(i + 1);
            assert(t.drop_last() =~= log@.take(i as int));
            let e = log[i];
            if e.0 != workflow_id {
                let ghost before = r@;
                r.push(e);
                assert(r@.drop_last() =~= before);
                assert(last_times(r@) =~= last_times(log@.take(i + 1)).remove(workflow_id));
            } else {
                assert(last_times(r@) =~= last_times(log@.take(i + 1)).remove(workflow_id));
            }
            i = i + 1;
        }
        assert(log@.take(i as int) =~= log@);
        r
    }

    /// Records that the workflow was checkpointed at `now_ms`.
    pub fn record_checkpoint(&mut self, workflow_id: u128, now_ms: u64)
        ensures
            final(self).last_view() == old(self).last_view().insert(workflow_id, now_ms),
            final(self).interval_view() == old(self).interval_view(),
            final(self).dir_view() == old(self).dir_view(),
    {
        let mut log = Self::drop_records(&self.last_checkpoint, workflow_id);
        let ghost before = log@;
        log.push((workflow_id, now_ms));
        assert(log@.drop_last() =~= before);
        assert(last_times(log@) =~= last_times(self.last_checkpoint@).insert(workflow_id, now_ms));
        self.last_checkpoint = log;
    }

    /// Forgets when the workflow was last checkpointed (its checkpoint was
    /// deleted), so that it is due again.
    pub fn forget_checkpoint(&mut self, workflow_id: u128)
        ensures
            final(self).last_view() == old(self).last_view().remove(workflow_id),
            final(self).interval_view() == old(self).interval_view(),
            final(self).dir_view() == old(self).dir_view(),
    {
        self.last_checkpoint = Self::drop_records(&self.last_checkpoint, workflow_id);
    }

    /// The snapshot of a DAG, taken now.
    pub fn build_checkpoint(&self, dag: &ExecutionDag) -> (cp: WorkflowCheckpoint)
        ensures
            snapshot_of(cp, dag.steps@),
    {
        build_checkpoint_at(dag, now_unix_millis())
    }

    /// The path of a workflow's checkpoint file: the checkpoint directory
    /// joined with `<workflow UUID>.json`.
    pub fn checkpoint_file_path(&self, workflow_id: u128) -> (p: String)
        ensures
            p@ == join_path(self.dir_view(), uuid_hyphenated(workflow_id) + ".json"@),
    {
        let name = checkpoint_file_name(workflow_id);
        string_join_path(self.checkpoint_dir.as_str(), name.as_str())
    }
}

} // verus!
