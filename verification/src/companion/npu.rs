//! Neural processing units a phone may expose, and which model formats each
//! can run.
use vstd::prelude::*;

verus! {

/// The kind of NPU found on a device.
#[derive(Debug, Clone, PartialEq, Eq)]
pub enum NpuType {
    /// Apple Neural Engine of the given generation.
    AppleNeuralEngine { generation: u32 },
    /// Qualcomm Hexagon DSP of the given version.
    QualcommHexagon { version: String },
    /// No NPU.
    Absent,
}

/// The platform delegate through which an NPU is used.
#[derive(Debug, Clone, Copy, PartialEq, Eq, Structural)]
pub enum NpuDelegate {
    /// Core ML (Apple Neural Engine).
    CoreML,
    /// Android Neural Networks API.
    NNAPI,
    /// Qualcomm Neural Network SDK.
    QNN,
    /// OpenCL on a mobile GPU.
    OpenCL,
}

/// What NPU detection found on the device.
#[derive(Debug, Clone)]
pub struct DetectedNPU {
    pub npu_type: NpuType,
    pub available: bool,
    pub delegate: Option<NpuDelegate>,
}

/// The model formats an NPU runs: Core ML models on the Apple Neural
/// Engine, QNN and TFLite models on a Hexagon DSP, none without an NPU.
pub open spec fn npu_supports_format(npu_type: NpuType, format: Seq<char>) -> bool {
    match npu_type {
        NpuType::AppleNeuralEngine { .. } => format == "coreml"@,
        NpuType::QualcommHexagon { .. } => format == "qnn"@ || format == "tflite"@,
        NpuType::Absent => false,
    }
}

/// Detection of NPU capabilities.
pub struct NPUDetector;

impl NPUDetector {
    /// Whether the detected NPU can run models of the given format.
    pub fn supports_format(npu: &DetectedNPU, format: &str) -> (b: bool)
        ensures
            b == npu_supports_format(npu.npu_type, format@),
    {
        let f = crate::text::chars_of(format);
        match &npu.npu_type {
            NpuType::AppleNeuralEngine { .. } => crate::text::chars_eq_str(&f, "coreml"),
            NpuType::QualcommHexagon { .. } => crate::text::chars_eq_str(&f, "qnn") || crate::text::chars_eq_str(&f, "tflite"),
            NpuType::Absent => false,
        }
    }
}

} // verus!
