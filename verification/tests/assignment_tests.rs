use resonantos_core::companion::assignment::{
    AssignmentError, AssignmentKind, AssignmentManager, AssignmentResponse, ConstraintViolation, ModelAssignment,
    PhoneConstraints,
};
use resonantos_core::companion::types::{AssignmentPriority, ConnectionType};

/// The phone's default limit on a full model's parameters, in billions.
const DEFAULT_MAX_PARAMS_B: f64 = 3.0;

/// The parameter check the program around the library makes before calling
/// it: a full model fits when its parameter count is within the limit.
fn fits(params_b: f64, max_b: f64) -> bool {
    !(params_b > max_b)
}

fn make_full_model_assignment(weight_mb: u64) -> ModelAssignment {
    ModelAssignment {
        model_id: "test-model".to_string(),
        assignment_type: AssignmentKind::FullModel,
        download_url: "http://example.com/model.gguf".to_string(),
        weight_size_mb: weight_mb,
        priority: AssignmentPriority::Normal,
    }
}

fn make_split_assignment(weight_mb: u64) -> ModelAssignment {
    ModelAssignment {
        model_id: "test-split-model".to_string(),
        assignment_type: AssignmentKind::SplitLayers { layer_range: (0, 15), session_id: uuid::Uuid::new_v4().as_u128() },
        download_url: "http://example.com/layers.gguf".to_string(),
        weight_size_mb: weight_mb,
        priority: AssignmentPriority::High,
    }
}

#[test]
fn test_validate_accepts_valid_assignment() {
    let manager = AssignmentManager::with_defaults();
    let assignment = make_full_model_assignment(2048);
    assert!(manager.validate_constraints(&assignment, fits(2.0, DEFAULT_MAX_PARAMS_B)).is_ok());
}

#[test]
fn test_validate_rejects_insufficient_memory() {
    let constraints = PhoneConstraints { available_memory_mb: 1024, ..Default::default() };
    let manager = AssignmentManager::new(constraints);
    let result = manager.validate_constraints(&make_full_model_assignment(2048), fits(2.0, DEFAULT_MAX_PARAMS_B));
    assert!(matches!(result, Err(ConstraintViolation::InsufficientMemory { required_mb: 2048, available_mb: 1024 })));
}

#[test]
fn test_validate_rejects_exceeding_max_model_size() {
    let constraints = PhoneConstraints { available_memory_mb: 4096, max_model_size_mb: 3072, ..Default::default() };
    let manager = AssignmentManager::new(constraints);
    let result = manager.validate_constraints(&make_full_model_assignment(3500), fits(2.5, DEFAULT_MAX_PARAMS_B));
    assert!(matches!(result, Err(ConstraintViolation::InsufficientMemory { .. })));
}

#[test]
fn test_validate_rejects_low_battery() {
    let constraints = PhoneConstraints { battery_percent: 15, is_charging: false, battery_threshold: 20, ..Default::default() };
    let manager = AssignmentManager::new(constraints);
    let result = manager.validate_constraints(&make_full_model_assignment(1024), fits(1.0, DEFAULT_MAX_PARAMS_B));
    assert!(matches!(result, Err(ConstraintViolation::BatteryTooLow { current: 15, threshold: 20 })));
}

#[test]
fn test_validate_accepts_low_battery_when_charging() {
    let constraints = PhoneConstraints { battery_percent: 15, is_charging: true, battery_threshold: 20, ..Default::default() };
    let manager = AssignmentManager::new(constraints);
    assert!(manager.validate_constraints(&make_full_model_assignment(1024), fits(1.0, DEFAULT_MAX_PARAMS_B)).is_ok());
}

#[test]
fn test_validate_rejects_cellular_when_not_allowed() {
    let constraints =
        PhoneConstraints { connection_type: ConnectionType::Cellular, allow_cellular: false, ..Default::default() };
    let manager = AssignmentManager::new(constraints);
    let result = manager.validate_constraints(&make_full_model_assignment(1024), fits(1.0, DEFAULT_MAX_PARAMS_B));
    assert!(matches!(result, Err(ConstraintViolation::CellularNotAllowed)));
}

#[test]
fn test_validate_accepts_cellular_when_allowed() {
    let constraints =
        PhoneConstraints { connection_type: ConnectionType::Cellular, allow_cellular: true, ..Default::default() };
    let manager = AssignmentManager::new(constraints);
    assert!(manager.validate_constraints(&make_full_model_assignment(1024), fits(1.0, DEFAULT_MAX_PARAMS_B)).is_ok());
}

#[test]
fn test_validate_rejects_model_too_large() {
    let manager = AssignmentManager::new(PhoneConstraints::default());
    let (params_b, max_b) = (7.0, 3.0);
    let result = manager.validate_constraints(&make_full_model_assignment(2048), fits(params_b, max_b));
    assert!(matches!(result, Err(ConstraintViolation::ModelTooLarge)));
    assert!((params_b - 7.0f64).abs() < f64::EPSILON && (max_b - 3.0f64).abs() < f64::EPSILON);
}

#[test]
fn test_validate_split_layers_no_params_check() {
    let manager = AssignmentManager::new(PhoneConstraints::default());
    // A split-layer assignment has no parameter count to check.
    assert!(manager.validate_constraints(&make_split_assignment(2048), false).is_ok());
}

#[test]
fn test_validate_at_exact_memory_boundary() {
    let constraints = PhoneConstraints { available_memory_mb: 3072, max_model_size_mb: 3072, ..Default::default() };
    let manager = AssignmentManager::new(constraints);
    assert!(manager.validate_constraints(&make_full_model_assignment(3072), fits(2.5, DEFAULT_MAX_PARAMS_B)).is_ok());
}

#[test]
fn test_validate_one_over_memory_boundary() {
    let constraints = PhoneConstraints { available_memory_mb: 3072, max_model_size_mb: 3072, ..Default::default() };
    let manager = AssignmentManager::new(constraints);
    assert!(manager.validate_constraints(&make_full_model_assignment(3073), fits(2.5, DEFAULT_MAX_PARAMS_B)).is_err());
}

#[test]
fn test_handle_assignment_accepted() {
    let mut manager = AssignmentManager::with_defaults();
    let response = manager.handle_assignment(&make_full_model_assignment(1024), fits(2.0, DEFAULT_MAX_PARAMS_B));
    assert!(matches!(response, AssignmentResponse::Accepted { .. }));
    assert!(manager.is_model_loaded(&"test-model".to_string()));
}

#[test]
fn test_handle_assignment_rejected() {
    let constraints = PhoneConstraints { available_memory_mb: 512, ..Default::default() };
    let mut manager = AssignmentManager::new(constraints);
    let response = manager.handle_assignment(&make_full_model_assignment(2048), fits(2.0, DEFAULT_MAX_PARAMS_B));
    assert!(matches!(response, AssignmentResponse::Rejected { .. }));
    assert!(!manager.is_model_loaded(&"test-model".to_string()));
}

#[test]
fn test_handle_assignment_estimated_ready_time() {
    let mut manager = AssignmentManager::with_defaults();
    let response = manager.handle_assignment(&make_full_model_assignment(1000), fits(2.0, DEFAULT_MAX_PARAMS_B));
    match response {
        AssignmentResponse::Accepted { estimated_ready_ms } => assert_eq!(estimated_ready_ms, 10000),
        _ => panic!("Expected Accepted response"),
    }
}

#[test]
fn test_handle_unload_success() {
    let mut manager = AssignmentManager::with_defaults();
    manager.handle_assignment(&make_full_model_assignment(1024), fits(2.0, DEFAULT_MAX_PARAMS_B));
    assert!(manager.handle_unload(&"test-model".to_string()).is_ok());
    assert!(!manager.is_model_loaded(&"test-model".to_string()));
}

#[test]
fn test_handle_unload_model_not_loaded() {
    let mut manager = AssignmentManager::with_defaults();
    let result = manager.handle_unload(&"nonexistent".to_string());
    assert!(matches!(result, Err(AssignmentError::ModelNotLoaded(_))));
}

#[test]
fn test_multiple_models_loaded() {
    let mut manager = AssignmentManager::with_defaults();
    let assignment1 = ModelAssignment {
        model_id: "model-a".to_string(),
        assignment_type: AssignmentKind::FullModel,
        download_url: "http://example.com/a.gguf".to_string(),
        weight_size_mb: 512,
        priority: AssignmentPriority::Normal,
    };
    let assignment2 = ModelAssignment {
        model_id: "model-b".to_string(),
        assignment_type: AssignmentKind::FullModel,
        download_url: "http://example.com/b.gguf".to_string(),
        weight_size_mb: 1024,
        priority: AssignmentPriority::Normal,
    };
    manager.handle_assignment(&assignment1, fits(1.0, DEFAULT_MAX_PARAMS_B));
    manager.handle_assignment(&assignment2, fits(2.0, DEFAULT_MAX_PARAMS_B));
    assert_eq!(manager.loaded_models().len(), 2);
    assert!(manager.is_model_loaded(&"model-a".to_string()));
    assert!(manager.is_model_loaded(&"model-b".to_string()));
    manager.handle_unload(&"model-a".to_string()).unwrap();
    assert!(!manager.is_model_loaded(&"model-a".to_string()));
    assert!(manager.is_model_loaded(&"model-b".to_string()));
}

#[test]
fn test_validate_accepts_wifi_connection() {
    let constraints = PhoneConstraints { connection_type: ConnectionType::WiFi, allow_cellular: false, ..Default::default() };
    let manager = AssignmentManager::new(constraints);
    assert!(manager.validate_constraints(&make_full_model_assignment(1024), fits(1.0, DEFAULT_MAX_PARAMS_B)).is_ok());
}

#[test]
fn test_validate_accepts_ethernet_connection() {
    let constraints =
        PhoneConstraints { connection_type: ConnectionType::Ethernet, allow_cellular: false, ..Default::default() };
    let manager = AssignmentManager::new(constraints);
    assert!(manager.validate_constraints(&make_full_model_assignment(1024), fits(1.0, DEFAULT_MAX_PARAMS_B)).is_ok());
}

#[test]
fn memory_is_checked_before_battery_and_network() {
    let constraints = PhoneConstraints {
        available_memory_mb: 100,
        battery_percent: 5,
        connection_type: ConnectionType::Cellular,
        allow_cellular: false,
        ..Default::default()
    };
    let manager = AssignmentManager::new(constraints);
    let result = manager.validate_constraints(&make_full_model_assignment(200), false);
    assert_eq!(result, Err(ConstraintViolation::InsufficientMemory { required_mb: 200, available_mb: 100 }));
}

#[test]
fn unload_removes_every_copy_of_a_model() {
    let mut manager = AssignmentManager::with_defaults();
    manager.handle_assignment(&make_full_model_assignment(10), true);
    manager.handle_assignment(&make_full_model_assignment(10), true);
    assert_eq!(manager.loaded_models().len(), 2);
    manager.handle_unload(&"test-model".to_string()).unwrap();
    assert!(manager.loaded_models().is_empty());
}

#[test]
fn test_assignment_flow_end_to_end() {
    let constraints = PhoneConstraints {
        available_memory_mb: 4096,
        battery_percent: 80,
        is_charging: false,
        connection_type: ConnectionType::WiFi,
        allow_cellular: false,
        max_model_size_mb: 3072,
        battery_threshold: 20,
    };
    let max_params_b = 3.0;
    let mut manager = AssignmentManager::new(constraints);
    let assignment = ModelAssignment {
        model_id: "phi-3b-q4".to_string(),
        assignment_type: AssignmentKind::FullModel,
        download_url: "http://coordinator.local/models/phi-3b-q4.gguf".to_string(),
        weight_size_mb: 2048,
        priority: AssignmentPriority::Normal,
    };
    let response = manager.handle_assignment(&assignment, fits(2.7, max_params_b));
    assert!(matches!(response, AssignmentResponse::Accepted { .. }), "valid assignment should be accepted");
    assert!(manager.is_model_loaded(&"phi-3b-q4".to_string()));
    let big_assignment = ModelAssignment {
        model_id: "llama-7b".to_string(),
        assignment_type: AssignmentKind::FullModel,
        download_url: "http://coordinator.local/models/llama-7b.gguf".to_string(),
        weight_size_mb: 5000,
        priority: AssignmentPriority::Normal,
    };
    let response = manager.handle_assignment(&big_assignment, fits(7.0, max_params_b));
    assert!(matches!(response, AssignmentResponse::Rejected { .. }), "oversized assignment should be rejected");
    assert!(manager.handle_unload(&"phi-3b-q4".to_string()).is_ok());
    assert!(!manager.is_model_loaded(&"phi-3b-q4".to_string()));
}

#[test]
fn test_with_defaults_holds_default_constraints() {
    let manager = AssignmentManager::with_defaults();
    let c = manager.constraints();
    assert_eq!(c.available_memory_mb, 3072);
    assert_eq!(c.battery_percent, 100);
    assert!(!c.is_charging);
    assert_eq!(c.connection_type, ConnectionType::WiFi);
    assert!(!c.allow_cellular);
    assert_eq!(c.max_model_size_mb, 3072);
    assert_eq!(c.battery_threshold, 20);
}
