use resonantos_core::agents::colocation::ColocationTracker;

fn tools(names: &[&str]) -> Vec<String> {
    names.iter().map(|s| s.to_string()).collect()
}

fn count_of(tracker: &ColocationTracker, model: &str, tool: &str) -> Option<u64> {
    tracker.pair_counts().iter().find(|p| p.model_id == model && p.tool_id == tool).map(|p| p.count)
}

/// The bonus a node earns: the weight when it qualifies, nothing otherwise.
fn bonus(tracker: &ColocationTracker, model: &str, node_tools: &Vec<String>, weight: f64) -> f64 {
    if tracker.qualifies_for_colocation_bonus(model, node_tools) {
        weight
    } else {
        0.0
    }
}

#[test]
fn test_record_step_completion_updates_pair_counts() {
    let mut tracker = ColocationTracker::new();
    tracker.record_step_completion(Some("qwen:7b"), &tools(&["browser", "filesystem"]));
    assert_eq!(tracker.total_observations(), 2);
    assert_eq!(count_of(&tracker, "qwen:7b", "browser"), Some(1));
    assert_eq!(count_of(&tracker, "qwen:7b", "filesystem"), Some(1));
}

#[test]
fn test_record_step_no_model_is_noop() {
    let mut tracker = ColocationTracker::new();
    tracker.record_step_completion(None, &tools(&["browser"]));
    assert_eq!(tracker.total_observations(), 0);
    assert!(tracker.pair_counts().is_empty());
}

#[test]
fn test_record_step_no_tools_is_noop() {
    let mut tracker = ColocationTracker::new();
    tracker.record_step_completion(Some("qwen:7b"), &Vec::new());
    assert_eq!(tracker.total_observations(), 0);
    assert!(tracker.pair_counts().is_empty());
}

#[test]
fn test_top_pairs_computation_returns_correct_ordering() {
    let mut tracker = ColocationTracker::new();
    for _ in 0..10 {
        tracker.record_step_completion(Some("qwen:7b"), &tools(&["browser"]));
    }
    for _ in 0..5 {
        tracker.record_step_completion(Some("qwen:7b"), &tools(&["filesystem"]));
    }
    for _ in 0..3 {
        tracker.record_step_completion(Some("llama:3b"), &tools(&["code_exec"]));
    }
    tracker.record_step_completion(Some("gemma:7b"), &tools(&["database"]));
    let top = tracker.compute_top_pairs(20);
    assert_eq!(top.len(), 4);
    assert_eq!((top[0].model_id.as_str(), top[0].tool_id.as_str(), top[0].count), ("qwen:7b", "browser", 10));
    assert_eq!((top[1].model_id.as_str(), top[1].tool_id.as_str(), top[1].count), ("qwen:7b", "filesystem", 5));
    assert_eq!((top[2].model_id.as_str(), top[2].tool_id.as_str(), top[2].count), ("llama:3b", "code_exec", 3));
    assert_eq!((top[3].model_id.as_str(), top[3].tool_id.as_str(), top[3].count), ("gemma:7b", "database", 1));
}

#[test]
fn test_top_pairs_respects_limit() {
    let mut tracker = ColocationTracker::new();
    tracker.record_step_completion(Some("a"), &tools(&["t1"]));
    tracker.record_step_completion(Some("b"), &tools(&["t2"]));
    tracker.record_step_completion(Some("c"), &tools(&["t3"]));
    tracker.record_step_completion(Some("d"), &tools(&["t4"]));
    assert_eq!(tracker.compute_top_pairs(3).len(), 3);
}

#[test]
fn test_colocation_bonus_applied_when_node_has_paired_tools() {
    let mut tracker = ColocationTracker::new();
    for _ in 0..10 {
        tracker.record_step_completion(Some("qwen:7b"), &tools(&["browser"]));
    }
    tracker.compute_top_pairs(20);
    assert_eq!(bonus(&tracker, "qwen:7b", &tools(&["browser", "filesystem"]), 0.15), 0.15);
}

#[test]
fn test_colocation_bonus_zero_when_node_lacks_paired_tools() {
    let mut tracker = ColocationTracker::new();
    for _ in 0..10 {
        tracker.record_step_completion(Some("qwen:7b"), &tools(&["browser"]));
    }
    tracker.compute_top_pairs(20);
    assert_eq!(bonus(&tracker, "qwen:7b", &tools(&["filesystem", "database"]), 0.15), 0.0);
}

#[test]
fn test_colocation_bonus_zero_for_unknown_model() {
    let mut tracker = ColocationTracker::new();
    for _ in 0..10 {
        tracker.record_step_completion(Some("qwen:7b"), &tools(&["browser"]));
    }
    tracker.compute_top_pairs(20);
    assert_eq!(bonus(&tracker, "unknown_model", &tools(&["browser"]), 0.15), 0.0);
}

#[test]
fn test_frequency_calculation_is_correct() {
    let mut tracker = ColocationTracker::new();
    for _ in 0..10 {
        tracker.record_step_completion(Some("qwen:7b"), &tools(&["browser", "filesystem"]));
    }
    let top = tracker.compute_top_pairs(20);
    assert_eq!(tracker.total_observations(), 20);
    assert_eq!(top.len(), 2);
    for pair in &top {
        assert_eq!(pair.count, 10);
        let frequency = pair.count as f64 / tracker.total_observations() as f64;
        assert!((frequency - 0.5).abs() < f64::EPSILON);
    }
}

#[test]
fn test_reset_clears_all_data() {
    let mut tracker = ColocationTracker::new();
    tracker.record_step_completion(Some("qwen:7b"), &tools(&["browser"]));
    tracker.compute_top_pairs(20);
    assert_eq!(tracker.total_observations(), 1);
    assert!(!tracker.top_pairs().is_empty());
    tracker.reset();
    assert_eq!(tracker.total_observations(), 0);
    assert!(tracker.pair_counts().is_empty());
    assert!(tracker.top_pairs().is_empty());
}

#[test]
fn test_frequently_paired_tools_filters_by_model() {
    let mut tracker = ColocationTracker::new();
    for _ in 0..10 {
        tracker.record_step_completion(Some("qwen:7b"), &tools(&["browser"]));
    }
    for _ in 0..5 {
        tracker.record_step_completion(Some("llama:3b"), &tools(&["code_exec"]));
    }
    tracker.compute_top_pairs(20);
    assert_eq!(tracker.frequently_paired_tools("qwen:7b"), vec!["browser".to_string()]);
    assert_eq!(tracker.frequently_paired_tools("llama:3b"), vec!["code_exec".to_string()]);
    assert!(tracker.frequently_paired_tools("unknown").is_empty());
}

#[test]
fn test_empty_tracker_returns_no_bonus() {
    let tracker = ColocationTracker::new();
    assert_eq!(bonus(&tracker, "qwen:7b", &tools(&["browser"]), 0.15), 0.0);
}

#[test]
fn test_compute_top_pairs_empty_tracker() {
    let mut tracker = ColocationTracker::new();
    assert!(tracker.compute_top_pairs(20).is_empty());
}

#[test]
fn test_multiple_tools_per_step_all_counted() {
    let mut tracker = ColocationTracker::new();
    tracker.record_step_completion(Some("qwen:7b"), &tools(&["browser", "filesystem", "code_exec"]));
    assert_eq!(tracker.total_observations(), 3);
    assert_eq!(tracker.pair_counts().len(), 3);
    assert_eq!(count_of(&tracker, "qwen:7b", "browser"), Some(1));
    assert_eq!(count_of(&tracker, "qwen:7b", "filesystem"), Some(1));
    assert_eq!(count_of(&tracker, "qwen:7b", "code_exec"), Some(1));
}

#[test]
fn top_pairs_keep_first_seen_order_among_equal_counts() {
    let mut tracker = ColocationTracker::new();
    tracker.record_step_completion(Some("m"), &tools(&["b"]));
    tracker.record_step_completion(Some("m"), &tools(&["a"]));
    tracker.record_step_completion(Some("m"), &tools(&["a"]));
    tracker.record_step_completion(Some("m"), &tools(&["c"]));
    let top = tracker.compute_top_pairs(10);
    let order: Vec<&str> = top.iter().map(|p| p.tool_id.as_str()).collect();
    assert_eq!(order, vec!["a", "b", "c"]);
}
