use std::hash::{Hash, Hasher};
use resonantos_core::agents::cache::ResultCache;
use resonantos_core::agents::dag::{ExecutionDag, ExecutionStep, PromptSensitivity, StepResult, StepStatus};

fn new_id() -> u128 {
    uuid::Uuid::new_v4().as_u128()
}

fn make_result(step_id: u128, data: Vec<u8>) -> StepResult {
    let size = data.len() as u64;
    StepResult {
        step_id,
        output_data: data,
        output_size_bytes: size,
        execution_node: new_id(),
        compute_time_ms: 100,
        model_used: None,
        tools_used: Vec::new(),
    }
}

fn make_step(id: u128) -> ExecutionStep {
    ExecutionStep {
        step_id: id,
        description: format!("Step {}", id),
        required_model: None,
        required_tools: Vec::new(),
        sensitivity: PromptSensitivity::NonSensitive,
        estimated_compute_ms: 1000,
        input_dependencies: Vec::new(),
        status: StepStatus::Pending,
        assigned_node: None,
        result: None,
    }
}

/// A -> B -> C, A -> D
fn make_test_dag() -> (ExecutionDag, u128, u128, u128, u128) {
    let (wf, a, b, c, d) = (new_id(), new_id(), new_id(), new_id(), new_id());
    let dag = ExecutionDag {
        workflow_id: wf,
        steps: vec![make_step(a), make_step(b), make_step(c), make_step(d)],
        edges: vec![(a, b), (b, c), (a, d)],
        root_steps: vec![a],
    };
    (dag, a, b, c, d)
}

fn fill(cache: &mut ResultCache, wf: u128, ids: &[u128]) {
    for (i, &id) in ids.iter().enumerate() {
        cache.store(wf, id, make_result(id, vec![i as u8 + 1]), i as u64 + 1);
    }
}

#[test]
fn test_store_and_retrieve() {
    let mut cache = ResultCache::new(10);
    let (wf, step) = (new_id(), new_id());
    let result = make_result(step, vec![1, 2, 3, 4]);
    cache.store(wf, step, result.clone(), 42);
    let cached = cache.get(wf, step);
    assert!(cached.is_some());
    assert_eq!(cached.unwrap().output_data, vec![1, 2, 3, 4]);
    assert_eq!(cached.unwrap().step_id, step);
}

#[test]
fn test_get_nonexistent_returns_none() {
    let cache = ResultCache::new(10);
    assert!(cache.get(new_id(), new_id()).is_none());
}

#[test]
fn test_store_replaces_existing_entry() {
    let mut cache = ResultCache::new(10);
    let (wf, step) = (new_id(), new_id());
    cache.store(wf, step, make_result(step, vec![1, 2, 3]), 10);
    cache.store(wf, step, make_result(step, vec![4, 5, 6, 7, 8]), 20);
    assert_eq!(cache.len(), 1);
    let cached = cache.get(wf, step).unwrap();
    assert_eq!(cached.output_data, vec![4, 5, 6, 7, 8]);
    let entry = cache.get_entry(wf, step).unwrap();
    assert_eq!(entry.upstream_hash, 20);
}

#[test]
fn test_eviction_when_over_size_limit() {
    let mut cache = ResultCache { entries: Vec::new(), max_size_bytes: 200, current_size_bytes: 0 };
    let (wf, step1, step2, step3) = (new_id(), new_id(), new_id(), new_id());
    cache.store(wf, step1, make_result(step1, vec![0u8; 50]), 1);
    assert_eq!(cache.len(), 1);
    assert!(cache.get(wf, step1).is_some());
    cache.store(wf, step2, make_result(step2, vec![0u8; 50]), 2);
    assert_eq!(cache.len(), 1);
    assert!(cache.get(wf, step1).is_none());
    assert!(cache.get(wf, step2).is_some());
    cache.store(wf, step3, make_result(step3, vec![0u8; 50]), 3);
    assert_eq!(cache.len(), 1);
    assert!(cache.get(wf, step2).is_none());
    assert!(cache.get(wf, step3).is_some());
}

#[test]
fn test_large_cache_no_eviction() {
    let mut cache = ResultCache::new(100);
    let wf = new_id();
    for i in 0..10u8 {
        let step = new_id();
        cache.store(wf, step, make_result(step, vec![i; 100]), i as u64);
    }
    assert_eq!(cache.len(), 10);
}

#[test]
fn test_invalidate_removes_entry() {
    let mut cache = ResultCache::new(10);
    let (wf, step) = (new_id(), new_id());
    cache.store(wf, step, make_result(step, vec![1, 2, 3]), 42);
    assert!(cache.get(wf, step).is_some());
    cache.invalidate(wf, step);
    assert!(cache.get(wf, step).is_none());
    assert_eq!(cache.len(), 0);
}

#[test]
fn test_invalidate_nonexistent_is_noop() {
    let mut cache = ResultCache::new(10);
    cache.invalidate(new_id(), new_id());
    assert_eq!(cache.len(), 0);
}

#[test]
fn test_invalidate_updates_size_tracking() {
    let mut cache = ResultCache::new(10);
    let (wf, step) = (new_id(), new_id());
    cache.store(wf, step, make_result(step, vec![0u8; 1000]), 1);
    assert!(cache.current_size_bytes() > 0);
    cache.invalidate(wf, step);
    assert_eq!(cache.current_size_bytes(), 0);
}

#[test]
fn test_invalidate_downstream_removes_transitive_dependents() {
    let (dag, a, b, c, d) = make_test_dag();
    let wf = dag.workflow_id;
    let mut cache = ResultCache::new(10);
    fill(&mut cache, wf, &[a, b, c, d]);
    assert_eq!(cache.len(), 4);
    cache.invalidate_downstream(wf, a, &dag);
    assert!(cache.get(wf, a).is_some());
    assert!(cache.get(wf, b).is_none());
    assert!(cache.get(wf, c).is_none());
    assert!(cache.get(wf, d).is_none());
    assert_eq!(cache.len(), 1);
}

#[test]
fn test_invalidate_downstream_partial() {
    let (dag, a, b, c, d) = make_test_dag();
    let wf = dag.workflow_id;
    let mut cache = ResultCache::new(10);
    fill(&mut cache, wf, &[a, b, c, d]);
    cache.invalidate_downstream(wf, b, &dag);
    assert!(cache.get(wf, a).is_some());
    assert!(cache.get(wf, b).is_some());
    assert!(cache.get(wf, c).is_none());
    assert!(cache.get(wf, d).is_some());
}

#[test]
fn test_invalidate_downstream_leaf_step_no_effect() {
    let (dag, a, b, c, d) = make_test_dag();
    let wf = dag.workflow_id;
    let mut cache = ResultCache::new(10);
    fill(&mut cache, wf, &[a, b, c, d]);
    cache.invalidate_downstream(wf, c, &dag);
    assert_eq!(cache.len(), 4);
}

#[test]
fn test_compute_input_hash_deterministic() {
    let (step1, step2) = (new_id(), new_id());
    let input = vec![(step1, vec![1, 2, 3]), (step2, vec![4, 5, 6])];
    let hash1 = ResultCache::compute_input_hash(&input);
    let hash2 = ResultCache::compute_input_hash(&input);
    assert_eq!(hash1, hash2);
}

#[test]
fn test_compute_input_hash_different_data_different_hash() {
    let step1 = new_id();
    let hash_a = ResultCache::compute_input_hash(&vec![(step1, vec![1, 2, 3])]);
    let hash_b = ResultCache::compute_input_hash(&vec![(step1, vec![4, 5, 6])]);
    assert_ne!(hash_a, hash_b);
}

#[test]
fn test_compute_input_hash_different_keys_different_hash() {
    let (step1, step2) = (new_id(), new_id());
    let hash_a = ResultCache::compute_input_hash(&vec![(step1, vec![1, 2, 3])]);
    let hash_b = ResultCache::compute_input_hash(&vec![(step2, vec![1, 2, 3])]);
    assert_ne!(hash_a, hash_b);
}

#[test]
fn test_compute_input_hash_empty_input() {
    let input: Vec<(u128, Vec<u8>)> = Vec::new();
    let hash = ResultCache::compute_input_hash(&input);
    let hash2 = ResultCache::compute_input_hash(&input);
    assert_eq!(hash, hash2);
}

#[test]
fn compute_input_hash_ignores_entry_order() {
    let a = vec![(5u128, vec![1u8]), (2u128, vec![2u8]), (9u128, vec![3u8])];
    let b = vec![(9u128, vec![3u8]), (5u128, vec![1u8]), (2u128, vec![2u8])];
    assert_eq!(ResultCache::compute_input_hash(&a), ResultCache::compute_input_hash(&b));
    assert_eq!(ResultCache::sorted_key_order(&a), vec![1, 0, 2]);
}

#[test]
fn test_clear_workflow_removes_all_entries_for_workflow() {
    let mut cache = ResultCache::new(10);
    let (wf1, wf2, step1, step2, step3) = (new_id(), new_id(), new_id(), new_id(), new_id());
    cache.store(wf1, step1, make_result(step1, vec![1]), 1);
    cache.store(wf1, step2, make_result(step2, vec![2]), 2);
    cache.store(wf2, step3, make_result(step3, vec![3]), 3);
    assert_eq!(cache.len(), 3);
    cache.clear_workflow(wf1);
    assert_eq!(cache.len(), 1);
    assert!(cache.get(wf1, step1).is_none());
    assert!(cache.get(wf1, step2).is_none());
    assert!(cache.get(wf2, step3).is_some());
}

#[test]
fn test_clear_workflow_updates_size() {
    let mut cache = ResultCache::new(10);
    let (wf, step1, step2) = (new_id(), new_id(), new_id());
    cache.store(wf, step1, make_result(step1, vec![0u8; 500]), 1);
    cache.store(wf, step2, make_result(step2, vec![0u8; 500]), 2);
    assert!(cache.current_size_bytes() > 0);
    cache.clear_workflow(wf);
    assert_eq!(cache.current_size_bytes(), 0);
    assert_eq!(cache.len(), 0);
}

#[test]
fn test_current_size_mb_empty() {
    let cache = ResultCache::new(10);
    assert_eq!(cache.current_size_bytes(), 0);
    assert!(cache.is_empty());
}

#[test]
fn test_current_size_mb_after_store() {
    let mut cache = ResultCache::new(10);
    let (wf, step) = (new_id(), new_id());
    cache.store(wf, step, make_result(step, vec![0u8; 1024 * 1024]), 1);
    let size = cache.current_size_bytes() as f64 / (1024.0 * 1024.0);
    assert!(size > 0.99);
    assert!(size < 1.01);
}

#[test]
fn cache_entry_size_counts_overhead() {
    let mut cache = ResultCache::new(1);
    let (wf, step) = (1u128, 2u128);
    cache.store(wf, step, make_result(step, vec![0u8; 72]), 7);
    assert_eq!(cache.get_entry(wf, step).unwrap().size_bytes, 200);
    assert_eq!(cache.current_size_bytes(), 200);
}

#[test]
fn find_downstream_steps_lists_each_dependent_once() {
    let (dag, a, b, c, d) = make_test_dag();
    let mut down = ResultCache::find_downstream_steps(a, &dag);
    down.sort();
    let mut expected = vec![b, c, d];
    expected.sort();
    assert_eq!(down, expected);
    assert!(ResultCache::find_downstream_steps(c, &dag).is_empty());
}

#[test]
fn compute_input_hash_matches_hashing_uuid_and_bytes() {
    let (a, b) = (0x11u128 << 100, 0x22u128 << 100);
    let input = vec![(b, vec![9u8, 8]), (a, vec![1u8, 2, 3])];
    let mut h = std::collections::hash_map::DefaultHasher::new();
    uuid::Uuid::from_u128(a).hash(&mut h);
    vec![1u8, 2, 3].hash(&mut h);
    uuid::Uuid::from_u128(b).hash(&mut h);
    vec![9u8, 8].hash(&mut h);
    assert_eq!(ResultCache::compute_input_hash(&input), h.finish());
}
