//! On-device inference: the llama.cpp interface (with a simulated
//! implementation for desktops), a backend over it, and the runtime that
//! enforces the phone's memory limit and picks an NPU delegate.
use vstd::prelude::*;

use crate::companion::npu::{npu_supports_format, DetectedNPU, NPUDetector, NpuDelegate};
use crate::paths::{file_name_of, path_file_name, split_stem_extension, stem_and_extension};
use crate::text::{chars_of, contains_seq, contains_str, owned, push_decimal, push_str, string_from_chars, decimal};

verus! {

// ─── llama.cpp interface ────────────────────────────────────────────────────

/// The llama.cpp C API as the backend uses it. Each implementation says,
/// through the spec functions, what its calls do.
pub trait LlamaCppFfi: Sized {
    /// Whether loading `path` with `n_gpu_layers` offloaded can answer `r`
    /// and leave the library as `after`.
    spec fn loads_model(&self, path: Seq<char>, n_gpu_layers: u32, use_mmap: bool, r: Result<u64, String>, after: Self) -> bool;

    /// Whether freeing `handle` can leave the library as `after`.
    spec fn frees_model(&self, handle: u64, after: Self) -> bool;

    /// Whether a forward pass of `handle` on `input` can answer `r`.
    spec fn evals(&self, handle: u64, input: Seq<u8>, r: Result<Vec<u8>, String>) -> bool;

    /// Memory held by the model `handle`, in bytes.
    spec fn memory_bytes(&self, handle: u64) -> u64;

    /// Initialises the library (once, at startup).
    fn backend_init(&self) -> Result<(), String>;

    /// Releases the library's resources.
    fn backend_free(&self);

    /// Loads a GGUF model, offloading `n_gpu_layers` layers to the GPU or
    /// NPU; returns a handle to the model.
    fn model_load(&mut self, path: &str, n_gpu_layers: u32, use_mmap: bool) -> (r: Result<u64, String>)
        ensures
            old(self).loads_model(path@, n_gpu_layers, use_mmap, r, *final(self)),
    ;

    /// Frees a loaded model.
    fn model_free(&mut self, handle: u64)
        ensures
            old(self).frees_model(handle, *final(self)),
    ;

    /// Runs a forward pass of a model on raw input bytes.
    fn eval(&self, handle: u64, input_data: &Vec<u8>) -> (r: Result<Vec<u8>, String>)
        ensures
            self.evals(handle, input_data@, r),
    ;

    /// Memory held by a loaded model, in bytes.
    fn model_memory_bytes(&self, handle: u64) -> (b: u64)
        ensures
            b == self.memory_bytes(handle),
    ;
}

/// A model held by the simulated library.
#[derive(Debug, Clone)]
struct MockModel {
    handle: u64,
    path: String,
    memory_bytes: u64,
    n_gpu_layers: u32,
}

/// A simulated llama.cpp for machines that cannot build it: models are
/// recorded, not loaded, and their memory is guessed from the file name.
#[derive(Debug)]
pub struct MockLlamaCppFfi {
    loaded_models: Vec<MockModel>,
}

/// A simulated model as plain values: handle, path, bytes, offloaded layers.
pub type MockModelView = (u64, Seq<char>, u64, u32);

/// Bytes the simulation assigns to a model file: 5 GiB for a name with
/// `7b`/`7B`, 2 GiB for `3b`/`3B`, 800 MiB for `1b`/`1B`, 1 GiB otherwise.
pub open spec fn simulated_memory(file_name: Seq<char>) -> u64 {
    if contains_seq(file_name, "7b"@) || contains_seq(file_name, "7B"@) {
        5368709120u64
    } else if contains_seq(file_name, "3b"@) || contains_seq(file_name, "3B"@) {
        2147483648u64
    } else if contains_seq(file_name, "1b"@) || contains_seq(file_name, "1B"@) {
        838860800u64
    } else {
        1073741824u64
    }
}

/// The memory recorded for `handle` (the first model with it), or zero.
pub open spec fn memory_of(models: Seq<MockModelView>, handle: u64) -> u64
    decreases models.len(),
{
    if models.len() == 0 {
        0
    } else if models[0].0 == handle {
        models[0].2
    } else {
        memory_of(models.drop_first(), handle)
    }
}

/// The models without those holding `handle`.
pub open spec fn without_handle(models: Seq<MockModelView>, handle: u64) -> Seq<MockModelView>
    decreases models.len(),
{
    if models.len() == 0 {
        models
    } else {
        let r = without_handle(models.drop_last(), handle);
        if models.last().0 == handle {
            r
        } else {
            r.push(models.last())
        }
    }
}

/// Whether some model holds `handle`.
pub open spec fn has_handle(models: Seq<MockModelView>, handle: u64) -> bool {
    exists|i: int| 0 <= i < models.len() && (#[trigger] models[i]).0 == handle
}

impl MockLlamaCppFfi {
    /// The recorded models, in order of loading.
    pub closed spec fn models_view(&self) -> Seq<MockModelView> {
        self.loaded_models@.map_values(|m: MockModel| (m.handle, m.path@, m.memory_bytes, m.n_gpu_layers))
    }

    /// A simulation with no model loaded.
    pub fn new() -> (f: Self)
        ensures
            f.models_view() == Seq::<MockModelView>::empty(),
    {
        let f = MockLlamaCppFfi { loaded_models: Vec::new() };
        assert(f.models_view() =~= Seq::<MockModelView>::empty());
        f
    }

    /// The memory the simulation assigns to the model at `path`.
    pub fn estimate_memory_from_path(path: &str) -> (b: u64)
        ensures
            b == simulated_memory(path_file_name(path@)),
    {
        let name = file_name_of(&chars_of(path));
        if contains_str(&name, "7b") || contains_str(&name, "7B") {
            5 * 1024 * 1024 * 1024
        } else if contains_str(&name, "3b") || contains_str(&name, "3B") {
            2 * 1024 * 1024 * 1024
        } else if contains_str(&name, "1b") || contains_str(&name, "1B") {
            800 * 1024 * 1024
        } else {
            1024 * 1024 * 1024
        }
    }
}

impl Default for MockLlamaCppFfi {
    fn default() -> (f: Self)
        ensures
            f.models_view() == Seq::<MockModelView>::empty(),
    {
        MockLlamaCppFfi::new()
    }
}

impl LlamaCppFfi for MockLlamaCppFfi {
    /// A load always succeeds: the next handle (one more than the models
    /// recorded), with the model recorded at its simulated size.
    open spec fn loads_model(&self, path: Seq<char>, n_gpu_layers: u32, use_mmap: bool, r: Result<u64, String>, after: Self) -> bool {
        &&& r is Ok
        &&& self.models_view().len() < u64::MAX ==> r == Ok::<u64, String>((self.models_view().len() + 1) as u64)
        &&& after.models_view() == self.models_view().push(
            (r->Ok_0, path, simulated_memory(path_file_name(path)), n_gpu_layers),
        )
    }

    /// Freeing forgets the models with the handle.
    open spec fn frees_model(&self, handle: u64, after: Self) -> bool {
        after.models_view() == without_handle(self.models_view(), handle)
    }

    /// A forward pass of a recorded model gives as many zero bytes as the
    /// input; of any other handle, the error "Model not loaded".
    open spec fn evals(&self, handle: u64, input: Seq<u8>, r: Result<Vec<u8>, String>) -> bool {
        if has_handle(self.models_view(), handle) {
            r matches Ok(out) && out@ == Seq::new(input.len(), |i: int| 0u8)
        } else {
            r matches Err(e) && e@ == "Model not loaded"@
        }
    }

    /// The simulated size recorded for the handle, zero when none is.
    open spec fn memory_bytes(&self, handle: u64) -> u64 {
        memory_of(self.models_view(), handle)
    }

    fn backend_init(&self) -> (r: Result<(), String>)
        ensures
            r is Ok,
    {
        Ok(())
    }

    fn backend_free(&self) {
    }

    fn model_load(&mut self, path: &str, n_gpu_layers: u32, use_mmap: bool) -> (r: Result<u64, String>)
    {
        let n = self.loaded_models.len() as u64;
        let handle = if n < u64::MAX {
            n + 1
        } else {
            n
        };
        let memory_bytes = Self::estimate_memory_from_path(path);
        let ghost before = self.loaded_models@;
        let m = MockModel { handle, path: owned(path), memory_bytes, n_gpu_layers };
        self.loaded_models.push(m);
        assert(self.models_view() =~= before.map_values(
            |m: MockModel| (m.handle, m.path@, m.memory_bytes, m.n_gpu_layers),
        ).push((handle, path@, memory_bytes, n_gpu_layers)));
        Ok(handle)
    }

    fn model_free(&mut self, handle: u64)
    {
        let ghost mv = self.models_view();
        let mut kept: Vec<MockModel> = Vec::new();
        let mut i: usize = 0;
        while i < self.loaded_models.len()
            invariant
                i <= self.loaded_models@.len(),
                mv == self.models_view(),
                mv.len() == self.loaded_models@.len(),
                kept@.map_values(|m: MockModel| (m.handle, m.path@, m.memory_bytes, m.n_gpu_layers)) == without_handle(
                    mv.take(i as int),
                    handle,
                ),
            decreases self.loaded_models.len() - i,
        {
            assert(mv.take(i + 1).drop_last() =~= mv.take(i as int));
            let m = &self.loaded_models[i];
            assert(mv.take(i + 1).last() == (m.handle, m.path@, m.memory_bytes, m.n_gpu_layers));
            if m.handle != handle {
                let ghost before = kept@;
                kept.push(MockModel { handle: m.handle, path: m.path.clone(), memory_bytes: m.memory_bytes, n_gpu_layers: m.n_gpu_layers });
                assert(kept@.map_values(|m: MockModel| (m.handle, m.path@, m.memory_bytes, m.n_gpu_layers)) =~= before.map_values(
                    |m: MockModel| (m.handle, m.path@, m.memory_bytes, m.n_gpu_layers),
                ).push(mv.take(i + 1).last()));
            }
            i = i + 1;
        }
        assert(mv.take(i as int) =~= mv);
        self.loaded_models = kept;
    }

    fn eval(&self, handle: u64, input_data: &Vec<u8>) -> (r: Result<Vec<u8>, String>)
    {
        let ghost mv = self.models_view();
        let mut i: usize = 0;
        let mut found = false;
        while i < self.loaded_models.len()
            invariant
                i <= self.loaded_models@.len(),
                mv == self.models_view(),
                mv.len() == self.loaded_models@.len(),
                found == exists|j: int| 0 <= j < i && (#[trigger] mv[j]).0 == handle,
            decreases self.loaded_models.len() - i,
        {
            assert(mv[i as int].0 == self.loaded_models@[i as int].handle);
            if self.loaded_models[i].handle == handle {
                found = true;
            }
            i = i + 1;
        }
        if found {
            let mut out: Vec<u8> = Vec::new();
            let mut k: usize = 0;
            while k < input_data.len()
                invariant
                    k <= input_data@.len(),
                    out@ == Seq::new(k as nat, |i: int| 0u8),
                decreases input_data.len() - k,
            {
                out.push(0u8);
                k = k + 1;
                assert(out@ =~= Seq::new(k as nat, |i: int| 0u8));
            }
            Ok(out)
        } else {
            Err(owned("Model not loaded"))
        }
    }

    fn model_memory_bytes(&self, handle: u64) -> (b: u64)
    {
        let ghost mv = self.models_view();
        let mut i: usize = 0;
        assert(mv.skip(0) =~= mv);
        while i < self.loaded_models.len()
            invariant
                i <= self.loaded_models@.len(),
                mv == self.models_view(),
                mv.len() == self.loaded_models@.len(),
                memory_of(mv, handle) == memory_of(mv.skip(i as int), handle),
            decreases self.loaded_models.len() - i,
        {
            let ghost rest = mv.skip(i as int);
            assert(rest[0] == mv[i as int]);
            assert(rest.drop_first() =~= mv.skip(i + 1));
            assert(mv[i as int] == (self.loaded_models@[i as int].handle, self.loaded_models@[i as int].path@, self.loaded_models@[i as int].memory_bytes, self.loaded_models@[i as int].n_gpu_layers));
            if self.loaded_models[i].handle == handle {
                return self.loaded_models[i].memory_bytes;
            }
            i = i + 1;
        }
        assert(mv.skip(i as int) =~= Seq::<MockModelView>::empty());
        0
    }
}

// ─── Errors ─────────────────────────────────────────────────────────────────

/// Errors of inference operations.
#[derive(Debug, Clone)]
pub enum InferenceError {
    /// Loading would exceed the memory limit.
    OutOfMemory { requested_mb: u64, available_mb: u64 },
    /// The model could not be loaded.
    ModelLoadFailed(String),
    /// The NPU cannot be used and falling back to the CPU is not allowed.
    NpuUnavailable,
    /// A forward pass exceeded its time budget.
    Timeout { elapsed_ms: u64, budget_ms: u64 },
    /// The inference backend failed.
    BackendCrash(String),
}

/// The message of an inference error.
pub open spec fn inference_error_text(e: InferenceError) -> Seq<char> {
    match e {
        InferenceError::OutOfMemory { requested_mb, available_mb } => "Out of memory: requested "@ + decimal(
            requested_mb as nat,
        ) + "MB, available "@ + decimal(available_mb as nat) + "MB"@,
        InferenceError::ModelLoadFailed(m) => "Model load failed: "@ + m@,
        InferenceError::NpuUnavailable => "NPU unavailable"@,
        InferenceError::Timeout { elapsed_ms, budget_ms } => "Inference timeout: "@ + decimal(elapsed_ms as nat)
            + "ms elapsed, "@ + decimal(budget_ms as nat) + "ms budget"@,
        InferenceError::BackendCrash(m) => "Backend crash: "@ + m@,
    }
}

impl InferenceError {
    /// The human-readable message of the error.
    pub fn to_text(&self) -> (s: String)
        ensures
            s@ == inference_error_text(*self),
    {
        let mut out: Vec<char> = Vec::new();
        match self {
            InferenceError::OutOfMemory { requested_mb, available_mb } => {
                push_str(&mut out, "Out of memory: requested ");
                push_decimal(&mut out, *requested_mb);
                push_str(&mut out, "MB, available ");
                push_decimal(&mut out, *available_mb);
                push_str(&mut out, "MB");
            },
            InferenceError::ModelLoadFailed(m) => {
                push_str(&mut out, "Model load failed: ");
                push_str(&mut out, m.as_str());
            },
            InferenceError::NpuUnavailable => {
                push_str(&mut out, "NPU unavailable");
            },
            InferenceError::Timeout { elapsed_ms, budget_ms } => {
                push_str(&mut out, "Inference timeout: ");
                push_decimal(&mut out, *elapsed_ms);
                push_str(&mut out, "ms elapsed, ");
                push_decimal(&mut out, *budget_ms);
                push_str(&mut out, "ms budget");
            },
            InferenceError::BackendCrash(m) => {
                push_str(&mut out, "Backend crash: ");
                push_str(&mut out, m.as_str());
            },
        }
        string_from_chars(&out)
    }
}

// ─── Backend ────────────────────────────────────────────────────────────────

/// Where a loaded model executes.
#[derive(Debug, Clone, Copy, PartialEq, Eq, Structural)]
pub enum BackendType {
    /// On the NPU, through the delegate.
    Npu(NpuDelegate),
    /// On the CPU.
    Cpu,
}

/// A model loaded and ready for inference.
#[derive(Debug, Clone)]
pub struct LoadedModel {
    pub model_id: String,
    /// The layers held, for a split model; `None` for a full model.
    pub layer_range: Option<(u32, u32)>,
    pub memory_mb: u64,
    pub backend_type: BackendType,
    pub ffi_handle: u64,
}

/// Tensor data with its shape.
#[derive(Debug, Clone)]
pub struct Tensor {
    pub data: Vec<u8>,
    pub shape: Vec<u32>,
}

/// An inference engine that loads one model at a time. Each engine says,
/// through its spec functions, what its operations do; the runtime's
/// contracts are stated over them.
pub trait InferenceBackend: Sized {
    /// The memory the engine accounts as in use, in megabytes.
    spec fn used_mb(&self) -> u64;

    /// Whether loading the model at `path` with `delegate` can answer `r`
    /// and leave the engine as `after`.
    spec fn loads(
        &self,
        path: Seq<char>,
        delegate: Option<NpuDelegate>,
        r: Result<LoadedModel, InferenceError>,
        after: Self,
    ) -> bool;

    /// Whether a forward pass of `model` on `input` can answer `r`.
    spec fn forwards(&self, model: LoadedModel, input: Tensor, r: Result<Tensor, InferenceError>) -> bool;

    /// Whether unloading can answer `r` and leave the engine as `after`.
    spec fn unloads(&self, r: Result<(), InferenceError>, after: Self) -> bool;

    /// Loads a model, on the NPU through `npu_delegate` when one is given.
    fn load_model(&mut self, path: &str, npu_delegate: Option<&NpuDelegate>) -> (r: Result<LoadedModel, InferenceError>)
        ensures
            old(self).loads(path@, delegate_of(npu_delegate), r, *final(self)),
    ;

    /// Runs a forward pass of the loaded model.
    fn run_forward(&self, model: &LoadedModel, input: &Tensor) -> (r: Result<Tensor, InferenceError>)
        ensures
            self.forwards(*model, *input, r),
    ;

    /// Unloads the current model and frees its memory: on success nothing
    /// is left in use.
    fn unload_model(&mut self) -> (r: Result<(), InferenceError>)
        ensures
            old(self).unloads(r, *final(self)),
            r is Ok ==> final(self).used_mb() == 0,
    ;

    /// Memory in use, in megabytes.
    fn memory_usage_mb(&self) -> (m: u64)
        ensures
            m == self.used_mb(),
    ;
}

/// Layers offloaded for a delegate: all of them (999) to the Neural Engine,
/// NNAPI or QNN, 32 to an OpenCL GPU, none on the CPU.
pub open spec fn gpu_layers_for(delegate: Option<NpuDelegate>) -> u32 {
    match delegate {
        Some(NpuDelegate::OpenCL) => 32,
        Some(_) => 999,
        None => 0,
    }
}

/// Where a model runs given its delegate.
pub open spec fn backend_type_for(delegate: Option<NpuDelegate>) -> BackendType {
    match delegate {
        Some(d) => BackendType::Npu(d),
        None => BackendType::Cpu,
    }
}

/// The delegate behind an optional reference.
pub open spec fn delegate_of(d: Option<&NpuDelegate>) -> Option<NpuDelegate> {
    match d {
        Some(x) => Some(*x),
        None => None,
    }
}

/// The layers to offload for a delegate.
pub fn gpu_layers(delegate: Option<&NpuDelegate>) -> (n: u32)
    ensures
        n == gpu_layers_for(delegate_of(delegate)),
        delegate == Some(&NpuDelegate::CoreML) || delegate == Some(&NpuDelegate::NNAPI) || delegate == Some(
            &NpuDelegate::QNN,
        ) ==> n == 999,
        delegate == Some(&NpuDelegate::OpenCL) ==> n == 32,
        delegate is None ==> n == 0,
{
    match delegate {
        Some(NpuDelegate::CoreML) => 999,
        Some(NpuDelegate::NNAPI) => 999,
        Some(NpuDelegate::QNN) => 999,
        Some(NpuDelegate::OpenCL) => 32,
        None => 0,
    }
}

/// Law: an NPU delegate never runs with no layers offloaded: the Neural
/// Engine, NNAPI and QNN take all layers (999), an OpenCL GPU 32, and only
/// the CPU (no delegate) none.
pub proof fn law_gpu_layers(delegate: Option<NpuDelegate>)
    ensures
        delegate == Some(NpuDelegate::CoreML) ==> gpu_layers_for(delegate) == 999,
        delegate == Some(NpuDelegate::NNAPI) ==> gpu_layers_for(delegate) == 999,
        delegate == Some(NpuDelegate::QNN) ==> gpu_layers_for(delegate) == 999,
        delegate == Some(NpuDelegate::OpenCL) ==> gpu_layers_for(delegate) == 32,
        delegate is None ==> gpu_layers_for(delegate) == 0,
        delegate is Some <==> gpu_layers_for(delegate) > 0,
{
}

/// The model ID of a model file: the stem of its file name.
pub open spec fn model_id_of_path(path: Seq<char>) -> Seq<char> {
    stem_and_extension(path_file_name(path)).0
}

/// A backend over the llama.cpp interface.
pub struct LlamaCppBackend<F: LlamaCppFfi> {
    ffi: F,
    current_model_handle: Option<u64>,
    current_memory_mb: u64,
}

impl<F: LlamaCppFfi> LlamaCppBackend<F> {
    /// Handle of the loaded model, if any.
    pub closed spec fn handle_view(&self) -> Option<u64> {
        self.current_model_handle
    }

    /// Memory of the loaded model, in megabytes.
    pub closed spec fn memory_view(&self) -> u64 {
        self.current_memory_mb
    }

    /// The library interface.
    pub closed spec fn ffi_view(&self) -> F {
        self.ffi
    }

    /// A backend over the given library interface, initialised, with no model.
    pub fn with_ffi(ffi: F) -> (b: Self)
        ensures
            b.handle_view() is None,
            b.memory_view() == 0,
            b.ffi_view() == ffi,
    {
        let _ = ffi.backend_init();
        LlamaCppBackend { ffi, current_model_handle: None, current_memory_mb: 0 }
    }
}

impl LlamaCppBackend<MockLlamaCppFfi> {
    /// A backend over the simulated library, with no model.
    pub fn new_mock() -> (b: Self)
        ensures
            b.handle_view() is None,
            b.memory_view() == 0,
            b.ffi_view().models_view() == Seq::<MockModelView>::empty(),
    {
        let ffi = MockLlamaCppFfi::new();
        let _ = ffi.backend_init();
        LlamaCppBackend { ffi, current_model_handle: None, current_memory_mb: 0 }
    }
}

impl<F: LlamaCppFfi> InferenceBackend for LlamaCppBackend<F> {
    open spec fn used_mb(&self) -> u64 {
        self.memory_view()
    }

    /// A load either records the new model's handle and memory and answers
    /// with the model (named after the file's stem, on the delegate's
    /// backend), or fails as `ModelLoadFailed` with nothing changed.
    open spec fn loads(
        &self,
        path: Seq<char>,
        delegate: Option<NpuDelegate>,
        r: Result<LoadedModel, InferenceError>,
        after: Self,
    ) -> bool {
        match r {
            Ok(m) => {
                &&& self.ffi_view().loads_model(path, gpu_layers_for(delegate), true, Ok(m.ffi_handle), after.ffi_view())
                &&& m.model_id@ == model_id_of_path(path)
                &&& m.layer_range is None
                &&& m.backend_type == backend_type_for(delegate)
                &&& m.memory_mb == after.ffi_view().memory_bytes(m.ffi_handle) / 1048576
                &&& m.memory_mb == after.memory_view()
                &&& after.handle_view() == Some(m.ffi_handle)
            },
            Err(e) => {
                &&& e matches InferenceError::ModelLoadFailed(msg) && self.ffi_view().loads_model(
                    path,
                    gpu_layers_for(delegate),
                    true,
                    Err(msg),
                    after.ffi_view(),
                )
                &&& after.handle_view() == self.handle_view()
                &&& after.memory_view() == self.memory_view()
            },
        }
    }

    /// A forward pass gives the library's output for the model's handle
    /// with the input's shape, or fails as `BackendCrash` with the
    /// library's message.
    open spec fn forwards(&self, model: LoadedModel, input: Tensor, r: Result<Tensor, InferenceError>) -> bool {
        match r {
            Ok(t) => t.shape@ == input.shape@ && self.ffi_view().evals(model.ffi_handle, input.data@, Ok(t.data)),
            Err(e) => e matches InferenceError::BackendCrash(msg) && self.ffi_view().evals(
                model.ffi_handle,
                input.data@,
                Err(msg),
            ),
        }
    }

    /// Unloading always succeeds, frees the held model in the library, and
    /// leaves no model and no memory in use.
    open spec fn unloads(&self, r: Result<(), InferenceError>, after: Self) -> bool {
        &&& r is Ok
        &&& after.handle_view() is None
        &&& after.memory_view() == 0
        &&& match self.handle_view() {
            Some(h) => self.ffi_view().frees_model(h, after.ffi_view()),
            None => after.ffi_view() == self.ffi_view(),
        }
    }

    fn load_model(&mut self, path: &str, npu_delegate: Option<&NpuDelegate>) -> (r: Result<LoadedModel, InferenceError>)
    {
        let n_gpu_layers = gpu_layers(npu_delegate);
        let handle = match self.ffi.model_load(path, n_gpu_layers, true) {
            Ok(h) => h,
            Err(e) => {
                return Err(InferenceError::ModelLoadFailed(e));
            },
        };
        let memory_bytes = self.ffi.model_memory_bytes(handle);
        let memory_mb = memory_bytes / (1024 * 1024);
        self.current_model_handle = Some(handle);
        self.current_memory_mb = memory_mb;
        let backend_type = match npu_delegate {
            Some(delegate) => BackendType::Npu(*delegate),
            None => BackendType::Cpu,
        };
        let name = file_name_of(&chars_of(path));
        let (stem, _) = split_stem_extension(&name);
        let model_id = string_from_chars(&stem);
        Ok(LoadedModel { model_id, layer_range: None, memory_mb, backend_type, ffi_handle: handle })
    }

    fn run_forward(&self, model: &LoadedModel, input: &Tensor) -> (r: Result<Tensor, InferenceError>)
    {
        let output_data = match self.ffi.eval(model.ffi_handle, &input.data) {
            Ok(d) => d,
            Err(e) => {
                return Err(InferenceError::BackendCrash(e));
            },
        };
        let mut shape: Vec<u32> = Vec::new();
        let mut i: usize = 0;
        while i < input.shape.len()
            invariant
                i <= input.shape@.len(),
                shape@ == input.shape@.take(i as int),
            decreases input.shape.len() - i,
        {
            shape.push(input.shape[i]);
            i = i + 1;
            assert(input.shape@.take(i as int) =~= input.shape@.take(i - 1).push(input.shape@[i - 1]));
        }
        assert(input.shape@.take(i as int) =~= input.shape@);
        Ok(Tensor { data: output_data, shape })
    }

    fn unload_model(&mut self) -> (r: Result<(), InferenceError>)
    {
        match self.current_model_handle {
            Some(handle) => {
                self.ffi.model_free(handle);
                self.current_model_handle = None;
            },
            None => {},
        }
        // with no model held no memory is in use
        self.current_memory_mb = 0;
        Ok(())
    }

    fn memory_usage_mb(&self) -> (m: u64)
    {
        self.current_memory_mb
    }
}

// ─── Runtime ────────────────────────────────────────────────────────────────

/// Configuration of the inference runtime.
#[derive(Debug, Clone)]
pub struct RuntimeConfig {
    /// Memory limit in megabytes.
    pub max_memory_mb: u64,
    /// Whether to run on the NPU when possible.
    pub prefer_npu: bool,
    /// Whether to run on the CPU when the NPU cannot be used.
    pub npu_fallback_to_cpu: bool,
    /// Threads for CPU inference.
    pub thread_count: u32,
}

impl Default for RuntimeConfig {
    fn default() -> (c: Self)
        ensures
            c.max_memory_mb == 3072,
            c.prefer_npu,
            c.npu_fallback_to_cpu,
            c.thread_count == 4,
    {
        RuntimeConfig { max_memory_mb: 3072, prefer_npu: true, npu_fallback_to_cpu: true, thread_count: 4 }
    }
}

/// The answer of the memory check: loading `weight` megabytes on top of
/// `current` must stay within `max`.
pub open spec fn memory_check(current: u64, weight: u64, max: u64) -> Result<(), InferenceError> {
    if current + weight > max {
        Err(
            InferenceError::OutOfMemory {
                requested_mb: weight,
                available_mb: if max >= current {
                    (max - current) as u64
                } else {
                    0
                },
            },
        )
    } else {
        Ok(())
    }
}

/// The delegate choice: the CPU when the NPU is not preferred; the NPU's
/// delegate when it is available and runs the format; otherwise the CPU if
/// falling back is allowed, else an error.
pub open spec fn delegate_choice(config: RuntimeConfig, npu: DetectedNPU, format: Seq<char>) -> Result<
    Option<NpuDelegate>,
    InferenceError,
> {
    if !config.prefer_npu {
        Ok(None)
    } else if npu.available && npu_supports_format(npu.npu_type, format) {
        Ok(npu.delegate)
    } else if config.npu_fallback_to_cpu {
        Ok(None)
    } else {
        Err(InferenceError::NpuUnavailable)
    }
}

/// Checks whether `weight_size_mb` more megabytes fit on top of
/// `current_usage_mb` within `max_memory_mb`.
pub fn check_memory(current_usage_mb: u64, weight_size_mb: u64, max_memory_mb: u64) -> (r: Result<(), InferenceError>)
    ensures
        r == memory_check(current_usage_mb, weight_size_mb, max_memory_mb),
{
    let total: u128 = current_usage_mb as u128 + weight_size_mb as u128;
    if total > max_memory_mb as u128 {
        let available = if max_memory_mb >= current_usage_mb {
            max_memory_mb - current_usage_mb
        } else {
            0
        };
        Err(InferenceError::OutOfMemory { requested_mb: weight_size_mb, available_mb: available })
    } else {
        Ok(())
    }
}

/// Law: with nothing loaded, a model is accepted exactly when it fits the
/// limit.
pub proof fn law_memory_limit_when_empty(weight: u64, max: u64)
    ensures
        memory_check(0, weight, max) is Ok <==> weight <= max,
{
}

/// Law: the NPU is chosen exactly when it is preferred, available and runs
/// the format; with CPU fallback allowed the choice never fails.
pub proof fn law_delegate_choice(config: RuntimeConfig, npu: DetectedNPU, format: Seq<char>)
    ensures
        (delegate_choice(config, npu, format) matches Ok(Some(_))) ==> config.prefer_npu && npu.available
            && npu_supports_format(npu.npu_type, format),
        config.npu_fallback_to_cpu ==> delegate_choice(config, npu, format) is Ok,
        !config.prefer_npu ==> delegate_choice(config, npu, format) == Ok::<Option<NpuDelegate>, InferenceError>(None),
{
}

/// What taking the backend's answer `answer` to a load gives, with memory
/// limit `max`: the runtime's loaded model and backend go from
/// `loaded_before`/`backend_before` to `loaded_after`/`backend_after` and
/// the answer is `r`. A backend error is passed on with nothing changed; a
/// model within the limit becomes the loaded one; a larger one is unloaded
/// from the backend again and refused as out of memory, or with the
/// unload's own error when that fails.
pub open spec fn accept_outcome<B: InferenceBackend>(
    max: u64,
    loaded_before: Option<LoadedModel>,
    backend_before: B,
    answer: Result<LoadedModel, InferenceError>,
    r: Result<LoadedModel, InferenceError>,
    loaded_after: Option<LoadedModel>,
    backend_after: B,
) -> bool {
    match answer {
        Err(e) => r == Err::<LoadedModel, InferenceError>(e) && loaded_after == loaded_before && backend_after
            == backend_before,
        Ok(m) => if m.memory_mb <= max {
            r == Ok::<LoadedModel, InferenceError>(m) && loaded_after == Some(m) && backend_after == backend_before
        } else {
            &&& loaded_after == loaded_before
            &&& exists|u: Result<(), InferenceError>|
                #[trigger] backend_before.unloads(u, backend_after) && r == match u {
                    Ok(()) => Err::<LoadedModel, InferenceError>(
                        InferenceError::OutOfMemory { requested_mb: m.memory_mb, available_mb: max },
                    ),
                    Err(e) => Err::<LoadedModel, InferenceError>(e),
                }
        },
    }
}

/// The runtime: one model at a time, within a memory limit.
pub struct InferenceRuntime<B: InferenceBackend> {
    backend: B,
    loaded_model: Option<LoadedModel>,
    config: RuntimeConfig,
}

impl InferenceRuntime<LlamaCppBackend<MockLlamaCppFfi>> {
    /// A runtime over the simulated library, with the default configuration.
    pub fn new_mock() -> (r: Self)
        ensures
            r.config_view().max_memory_mb == 3072,
            r.config_view().prefer_npu,
            r.config_view().npu_fallback_to_cpu,
            r.loaded_view() is None,
            r.config_view().thread_count == 4,
            r.backend_view().memory_view() == 0,
            r.backend_view().used_mb() == 0,
            r.backend_view().handle_view() is None,
            r.backend_view().ffi_view().models_view() == Seq::<MockModelView>::empty(),
    {
        InferenceRuntime::new(LlamaCppBackend::new_mock(), RuntimeConfig::default())
    }
}

impl<B: InferenceBackend> InferenceRuntime<B> {
    /// The configuration.
    pub closed spec fn config_view(&self) -> RuntimeConfig {
        self.config
    }

    /// The loaded model, if any.
    pub closed spec fn loaded_view(&self) -> Option<LoadedModel> {
        self.loaded_model
    }

    /// The backend.
    pub closed spec fn backend_view(&self) -> B {
        self.backend
    }

    /// A runtime over `backend` with `config`, with no model loaded.
    pub fn new(backend: B, config: RuntimeConfig) -> (r: Self)
        ensures
            r.config_view() == config,
            r.loaded_view() is None,
            r.backend_view() == backend,
    {
        InferenceRuntime { backend, loaded_model: None, config }
    }

    /// Whether `weight_size_mb` more megabytes fit within the memory limit,
    /// given what the backend reports in use.
    pub fn can_load_model(&self, weight_size_mb: u64) -> (r: Result<(), InferenceError>)
        ensures
            r == memory_check(self.backend_view().used_mb(), weight_size_mb, self.config_view().max_memory_mb),
    {
        let current = self.backend.memory_usage_mb();
        check_memory(current, weight_size_mb, self.config.max_memory_mb)
    }

    /// Chooses where to run a model of `model_format` given the detected NPU.
    pub fn select_delegate(&self, detected_npu: &DetectedNPU, model_format: &str) -> (r: Result<
        Option<NpuDelegate>,
        InferenceError,
    >)
        ensures
            r == delegate_choice(self.config_view(), *detected_npu, model_format@),
    {
        if !self.config.prefer_npu {
            return Ok(None);
        }
        if detected_npu.available && NPUDetector::supports_format(detected_npu, model_format) {
            Ok(detected_npu.delegate)
        } else if self.config.npu_fallback_to_cpu {
            Ok(None)
        } else {
            Err(InferenceError::NpuUnavailable)
        }
    }

    /// Loads a model: checks the memory limit, chooses the delegate, loads
    /// through the backend, and unloads again if the model turns out larger
    /// than the limit. The first two checks decide alone and change nothing
    /// when they refuse; once both pass, the answer is that of
    /// `accept_loaded` on what the backend returned.
    pub fn load_model(&mut self, path: &str, weight_size_mb: u64, detected_npu: &DetectedNPU, model_format: &str) -> (r:
        Result<LoadedModel, InferenceError>)
        ensures
            memory_check(old(self).backend_view().used_mb(), weight_size_mb, old(self).config_view().max_memory_mb) matches Err(e)
                ==> r == Err::<LoadedModel, InferenceError>(e) && *final(self) == *old(self),
            memory_check(old(self).backend_view().used_mb(), weight_size_mb, old(self).config_view().max_memory_mb) is Ok
                ==> (delegate_choice(old(self).config_view(), *detected_npu, model_format@) matches Err(e)
                ==> r == Err::<LoadedModel, InferenceError>(e) && *final(self) == *old(self)),
            memory_check(old(self).backend_view().used_mb(), weight_size_mb, old(self).config_view().max_memory_mb) is Ok
                ==> (delegate_choice(old(self).config_view(), *detected_npu, model_format@) matches Ok(d) ==> exists|
                answer: Result<LoadedModel, InferenceError>,
                mid: B,
            |
                #[trigger] old(self).backend_view().loads(path@, d, answer, mid) && accept_outcome(
                    old(self).config_view().max_memory_mb,
                    old(self).loaded_view(),
                    mid,
                    answer,
                    r,
                    final(self).loaded_view(),
                    final(self).backend_view(),
                )),
            weight_size_mb > old(self).config_view().max_memory_mb ==> r is Err,
            r is Err ==> final(self).loaded_view() == old(self).loaded_view(),
            r matches Ok(m) ==> {
                &&& final(self).loaded_view() == Some(m)
                &&& m.memory_mb <= old(self).config_view().max_memory_mb
                &&& memory_check(old(self).backend_view().used_mb(), weight_size_mb, old(self).config_view().max_memory_mb) is Ok
                &&& delegate_choice(old(self).config_view(), *detected_npu, model_format@) is Ok
            },
            final(self).config_view() == old(self).config_view(),
    {
        match self.can_load_model(weight_size_mb) {
            Err(e) => {
                return Err(e);
            },
            Ok(()) => {},
        }
        let delegate = match self.select_delegate(detected_npu, model_format) {
            Err(e) => {
                return Err(e);
            },
            Ok(d) => d,
        };
        let loaded = match &delegate {
            Some(d) => self.backend.load_model(path, Some(d)),
            None => self.backend.load_model(path, None),
        };
        self.accept_loaded(loaded)
    }

    /// Takes what the backend answered to a load (see `accept_outcome`).
    pub fn accept_loaded(&mut self, loaded: Result<LoadedModel, InferenceError>) -> (r: Result<LoadedModel, InferenceError>)
        ensures
            final(self).config_view() == old(self).config_view(),
            accept_outcome(
                old(self).config_view().max_memory_mb,
                old(self).loaded_view(),
                old(self).backend_view(),
                loaded,
                r,
                final(self).loaded_view(),
                final(self).backend_view(),
            ),
            loaded matches Err(e) ==> r == Err::<LoadedModel, InferenceError>(e) && *final(self) == *old(self),
            loaded matches Ok(m) ==> (m.memory_mb <= old(self).config_view().max_memory_mb ==> {
                &&& r == Ok::<LoadedModel, InferenceError>(m)
                &&& final(self).loaded_view() == Some(m)
                &&& final(self).backend_view() == old(self).backend_view()
            }),
            loaded matches Ok(m) ==> (m.memory_mb > old(self).config_view().max_memory_mb ==> {
                &&& r is Err
                &&& final(self).loaded_view() == old(self).loaded_view()
            }),
    {
        let loaded = match loaded {
            Err(e) => {
                return Err(e);
            },
            Ok(m) => m,
        };
        if loaded.memory_mb > self.config.max_memory_mb {
            let u = self.backend.unload_model();
            let ghost gu = u;
            match u {
                Err(e) => {
                    assert(old(self).backend_view().unloads(gu, self.backend_view()));
                    return Err(e);
                },
                Ok(()) => {},
            }
            assert(old(self).backend_view().unloads(gu, self.backend_view()));
            return Err(InferenceError::OutOfMemory { requested_mb: loaded.memory_mb, available_mb: self.config.max_memory_mb });
        }
        let copy = LoadedModel {
            model_id: loaded.model_id.clone(),
            layer_range: loaded.layer_range,
            memory_mb: loaded.memory_mb,
            backend_type: loaded.backend_type,
            ffi_handle: loaded.ffi_handle,
        };
        self.loaded_model = Some(loaded);
        assert(copy == self.loaded_model.unwrap());
        Ok(copy)
    }

    /// Runs a forward pass of the loaded model; an error when none is loaded.
    pub fn run_forward(&self, input: &Tensor) -> (r: Result<Tensor, InferenceError>)
        ensures
            self.loaded_view() is None ==> (r matches Err(InferenceError::ModelLoadFailed(m)) && m@ == "No model loaded"@),
            self.loaded_view() matches Some(m) ==> self.backend_view().forwards(m, *input, r),
    {
        match &self.loaded_model {
            None => Err(InferenceError::ModelLoadFailed(owned("No model loaded"))),
            Some(model) => self.backend.run_forward(model, input),
        }
    }

    /// Unloads the current model.
    pub fn unload_model(&mut self) -> (r: Result<(), InferenceError>)
        ensures
            final(self).loaded_view() is None,
            final(self).config_view() == old(self).config_view(),
            old(self).backend_view().unloads(r, final(self).backend_view()),
            r is Ok ==> final(self).backend_view().used_mb() == 0,
    {
        self.loaded_model = None;
        self.backend.unload_model()
    }

    /// Memory in use, as the backend reports it.
    pub fn memory_usage_mb(&self) -> (m: u64)
        ensures
            m == self.backend_view().used_mb(),
    {
        self.backend.memory_usage_mb()
    }

    /// The configuration.
    pub fn config(&self) -> (c: &RuntimeConfig)
        ensures
            *c == self.config_view(),
    {
        &self.config
    }

    /// Whether a model is loaded.
    pub fn has_model_loaded(&self) -> (b: bool)
        ensures
            b == self.loaded_view() is Some,
    {
        self.loaded_model.is_some()
    }
}

} // verus!
