use resonantos_core::companion::inference_runtime::{
    check_memory, BackendType, InferenceBackend, InferenceError, InferenceRuntime, LlamaCppBackend, LlamaCppFfi, LoadedModel,
    MockLlamaCppFfi, RuntimeConfig, Tensor,
};
use resonantos_core::companion::npu::{DetectedNPU, NpuDelegate, NpuType};

fn make_npu_available() -> DetectedNPU {
    DetectedNPU { npu_type: NpuType::AppleNeuralEngine { generation: 5 }, available: true, delegate: Some(NpuDelegate::CoreML) }
}

fn make_npu_unavailable() -> DetectedNPU {
    DetectedNPU { npu_type: NpuType::Absent, available: false, delegate: None }
}

#[test]
fn test_memory_limit_rejects_oversized_model() {
    let runtime = InferenceRuntime::new_mock();
    let result = runtime.can_load_model(4096);
    assert!(result.is_err());
    match result.unwrap_err() {
        InferenceError::OutOfMemory { requested_mb, available_mb } => {
            assert_eq!(requested_mb, 4096);
            assert_eq!(available_mb, 3072);
        },
        _ => panic!("Expected OutOfMemory error"),
    }
}

#[test]
fn test_memory_limit_accepts_model_within_limit() {
    let runtime = InferenceRuntime::new_mock();
    assert!(runtime.can_load_model(2048).is_ok());
}

#[test]
fn test_memory_limit_exactly_at_boundary() {
    let runtime = InferenceRuntime::new_mock();
    assert!(runtime.can_load_model(3072).is_ok());
}

#[test]
fn test_memory_limit_one_over_boundary() {
    let runtime = InferenceRuntime::new_mock();
    assert!(runtime.can_load_model(3073).is_err());
}

#[test]
fn test_memory_limit_zero_size() {
    let runtime = InferenceRuntime::new_mock();
    assert!(runtime.can_load_model(0).is_ok());
}

#[test]
fn test_custom_memory_limit() {
    let config = RuntimeConfig { max_memory_mb: 1024, ..Default::default() };
    let runtime = InferenceRuntime::new(LlamaCppBackend::new_mock(), config);
    assert!(runtime.can_load_model(1024).is_ok());
    assert!(runtime.can_load_model(1025).is_err());
}

#[test]
fn test_npu_selected_when_available_and_compatible() {
    let runtime = InferenceRuntime::new_mock();
    let npu = make_npu_available();
    let delegate = runtime.select_delegate(&npu, "coreml").unwrap();
    assert_eq!(delegate, Some(NpuDelegate::CoreML));
}

#[test]
fn test_cpu_fallback_when_npu_unavailable() {
    let runtime = InferenceRuntime::new_mock();
    let npu = make_npu_unavailable();
    let delegate = runtime.select_delegate(&npu, "gguf").unwrap();
    assert_eq!(delegate, None);
}

#[test]
fn test_cpu_fallback_when_format_incompatible() {
    let runtime = InferenceRuntime::new_mock();
    let npu = DetectedNPU {
        npu_type: NpuType::QualcommHexagon { version: "v73".to_string() },
        available: true,
        delegate: Some(NpuDelegate::NNAPI),
    };
    let delegate = runtime.select_delegate(&npu, "coreml").unwrap();
    assert_eq!(delegate, None);
}

#[test]
fn test_npu_error_when_no_fallback_allowed() {
    let config = RuntimeConfig { npu_fallback_to_cpu: false, ..Default::default() };
    let runtime = InferenceRuntime::new(LlamaCppBackend::new_mock(), config);
    let npu = make_npu_unavailable();
    let result = runtime.select_delegate(&npu, "gguf");
    assert!(matches!(result, Err(InferenceError::NpuUnavailable)));
}

#[test]
fn test_cpu_when_npu_not_preferred() {
    let config = RuntimeConfig { prefer_npu: false, ..Default::default() };
    let runtime = InferenceRuntime::new(LlamaCppBackend::new_mock(), config);
    let npu = make_npu_available();
    let delegate = runtime.select_delegate(&npu, "coreml").unwrap();
    assert_eq!(delegate, None);
}

#[test]
fn test_mock_backend_load_and_unload() {
    let mut backend = LlamaCppBackend::new_mock();
    let loaded = backend.load_model("/models/test-1b.gguf", None).unwrap();
    assert!(!loaded.model_id.is_empty());
    assert_eq!(loaded.backend_type, BackendType::Cpu);
    assert!(backend.memory_usage_mb() > 0);
    backend.unload_model().unwrap();
    assert_eq!(backend.memory_usage_mb(), 0);
}

#[test]
fn test_mock_backend_forward_pass() {
    let mut backend = LlamaCppBackend::new_mock();
    let loaded = backend.load_model("/models/test-1b.gguf", None).unwrap();
    let input = Tensor { data: vec![1, 2, 3, 4], shape: vec![1, 4] };
    let output = backend.run_forward(&loaded, &input).unwrap();
    assert_eq!(output.data.len(), input.data.len());
    assert_eq!(output.shape, input.shape);
}

#[test]
fn test_mock_backend_npu_delegate() {
    let mut backend = LlamaCppBackend::new_mock();
    let loaded = backend.load_model("/models/test-1b.gguf", Some(&NpuDelegate::CoreML)).unwrap();
    assert_eq!(loaded.backend_type, BackendType::Npu(NpuDelegate::CoreML));
}

#[test]
fn test_runtime_load_model_within_limit() {
    let mut runtime = InferenceRuntime::new_mock();
    let npu = make_npu_unavailable();
    let result = runtime.load_model("/models/small-1b.gguf", 800, &npu, "gguf");
    assert!(result.is_ok());
    assert!(runtime.has_model_loaded());
}

#[test]
fn test_runtime_rejects_model_exceeding_limit() {
    let mut runtime = InferenceRuntime::new_mock();
    let npu = make_npu_unavailable();
    let result = runtime.load_model("/models/huge.gguf", 4096, &npu, "gguf");
    assert!(result.is_err());
    assert!(!runtime.has_model_loaded());
}

#[test]
fn test_runtime_unload_frees_memory() {
    let mut runtime = InferenceRuntime::new_mock();
    let npu = make_npu_unavailable();
    runtime.load_model("/models/small-1b.gguf", 800, &npu, "gguf").unwrap();
    assert!(runtime.memory_usage_mb() > 0);
    runtime.unload_model().unwrap();
    assert_eq!(runtime.memory_usage_mb(), 0);
    assert!(!runtime.has_model_loaded());
}

#[test]
fn test_runtime_default_config() {
    let runtime = InferenceRuntime::new_mock();
    assert_eq!(runtime.config().max_memory_mb, 3072);
    assert!(runtime.config().prefer_npu);
    assert!(runtime.config().npu_fallback_to_cpu);
}

#[test]
fn test_runtime_forward_without_model_errors() {
    let runtime = InferenceRuntime::new_mock();
    let input = Tensor { data: vec![1, 2, 3], shape: vec![1, 3] };
    let result = runtime.run_forward(&input);
    assert!(matches!(result, Err(InferenceError::ModelLoadFailed(_))));
}

#[test]
fn test_mock_ffi_backend_init() {
    let ffi = MockLlamaCppFfi::new();
    assert!(ffi.backend_init().is_ok());
}

#[test]
fn test_mock_ffi_model_load_and_free() {
    let mut ffi = MockLlamaCppFfi::new();
    let handle = ffi.model_load("/models/test.gguf", 0, true).unwrap();
    assert!(handle > 0);
    assert!(ffi.model_memory_bytes(handle) > 0);
    ffi.model_free(handle);
    assert_eq!(ffi.model_memory_bytes(handle), 0);
}

#[test]
fn test_mock_ffi_eval_requires_loaded_model() {
    let ffi = MockLlamaCppFfi::new();
    let result = ffi.eval(999, &vec![1, 2, 3]);
    assert!(result.is_err());
}

#[test]
fn test_mock_ffi_memory_estimation() {
    let mut ffi = MockLlamaCppFfi::new();
    let h7b = ffi.model_load("/models/llama-7b.gguf", 0, true).unwrap();
    let h3b = ffi.model_load("/models/phi-3b.gguf", 0, true).unwrap();
    let h1b = ffi.model_load("/models/tiny-1b.gguf", 0, true).unwrap();
    assert!(ffi.model_memory_bytes(h7b) > ffi.model_memory_bytes(h3b));
    assert!(ffi.model_memory_bytes(h3b) > ffi.model_memory_bytes(h1b));
}

#[test]
fn mock_memory_estimates_exact() {
    assert_eq!(MockLlamaCppFfi::estimate_memory_from_path("/m/llama-7B.gguf"), 5 * 1024 * 1024 * 1024);
    assert_eq!(MockLlamaCppFfi::estimate_memory_from_path("/m/phi-3b.gguf"), 2 * 1024 * 1024 * 1024);
    assert_eq!(MockLlamaCppFfi::estimate_memory_from_path("/m/tiny-1b.gguf"), 800 * 1024 * 1024);
    assert_eq!(MockLlamaCppFfi::estimate_memory_from_path("/m/other.gguf"), 1024 * 1024 * 1024);
    assert_eq!(MockLlamaCppFfi::estimate_memory_from_path("/7b-dir/other.gguf"), 1024 * 1024 * 1024);
}

#[test]
fn model_id_is_file_stem() {
    let mut backend = LlamaCppBackend::new_mock();
    let loaded = backend.load_model("/models/tiny-1b.gguf", None).unwrap();
    assert_eq!(loaded.model_id, "tiny-1b");
    assert_eq!(loaded.memory_mb, 800);
}

#[test]
fn memory_check_exact_values() {
    match check_memory(1000, 3000, 3072).unwrap_err() {
        InferenceError::OutOfMemory { requested_mb, available_mb } => {
            assert_eq!(requested_mb, 3000);
            assert_eq!(available_mb, 2072);
        },
        _ => panic!("Expected OutOfMemory"),
    }
    assert!(check_memory(1000, 2072, 3072).is_ok());
}

#[test]
fn oversized_actual_model_is_unloaded() {
    let config = RuntimeConfig { max_memory_mb: 4000, ..Default::default() };
    let mut runtime = InferenceRuntime::new(LlamaCppBackend::new_mock(), config);
    let npu = make_npu_unavailable();
    let result = runtime.load_model("/models/llama-7b.gguf", 1000, &npu, "gguf");
    match result {
        Err(InferenceError::OutOfMemory { requested_mb, available_mb }) => {
            assert_eq!(requested_mb, 5120);
            assert_eq!(available_mb, 4000);
        },
        _ => panic!("Expected OutOfMemory"),
    }
    assert!(!runtime.has_model_loaded());
    assert_eq!(runtime.memory_usage_mb(), 0);
}

#[test]
fn inference_error_texts() {
    assert_eq!(InferenceError::OutOfMemory { requested_mb: 10, available_mb: 5 }.to_text(), "Out of memory: requested 10MB, available 5MB");
    assert_eq!(InferenceError::NpuUnavailable.to_text(), "NPU unavailable");
    assert_eq!(InferenceError::Timeout { elapsed_ms: 7, budget_ms: 5 }.to_text(), "Inference timeout: 7ms elapsed, 5ms budget");
}

#[test]
fn test_accept_loaded_refuses_model_over_limit() {
    let mut runtime = InferenceRuntime::new_mock();
    let big = LoadedModel {
        model_id: "big".to_string(),
        layer_range: None,
        memory_mb: 4000,
        backend_type: BackendType::Cpu,
        ffi_handle: 7,
    };
    match runtime.accept_loaded(Ok(big)) {
        Err(InferenceError::OutOfMemory { requested_mb, available_mb }) => {
            assert_eq!(requested_mb, 4000);
            assert_eq!(available_mb, 3072);
        },
        _ => panic!("Expected OutOfMemory error"),
    }
    assert!(!runtime.has_model_loaded());
}

#[test]
fn test_accept_loaded_keeps_model_within_limit() {
    let mut runtime = InferenceRuntime::new_mock();
    let small = LoadedModel {
        model_id: "small".to_string(),
        layer_range: None,
        memory_mb: 800,
        backend_type: BackendType::Cpu,
        ffi_handle: 3,
    };
    let m = runtime.accept_loaded(Ok(small)).unwrap();
    assert_eq!(m.model_id, "small");
    assert_eq!(m.memory_mb, 800);
    assert!(runtime.has_model_loaded());
}

#[test]
fn test_accept_loaded_passes_backend_error_on() {
    let mut runtime = InferenceRuntime::new_mock();
    let r = runtime.accept_loaded(Err(InferenceError::NpuUnavailable));
    assert!(matches!(r, Err(InferenceError::NpuUnavailable)));
    assert!(!runtime.has_model_loaded());
}

#[test]
fn test_load_model_refused_by_delegate_choice() {
    let mut runtime = InferenceRuntime::new(
        LlamaCppBackend::new_mock(),
        RuntimeConfig { max_memory_mb: 3072, prefer_npu: true, npu_fallback_to_cpu: false, thread_count: 4 },
    );
    let npu = make_npu_unavailable();
    let r = runtime.load_model("/models/small-1b.gguf", 800, &npu, "gguf");
    assert!(matches!(r, Err(InferenceError::NpuUnavailable)));
    assert_eq!(runtime.memory_usage_mb(), 0);
}
