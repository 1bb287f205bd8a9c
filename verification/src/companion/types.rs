//! Shared data types of the phone companion.
use vstd::prelude::*;

verus! {

/// Trust level given to a phone node after pairing.
#[derive(Debug, Clone, Copy, PartialEq, Eq, Structural)]
pub enum TrustLevel {
    /// The owner's own device, paired directly.
    LocalOwned,
    /// A device of an invited friend.
    InvitedFriend,
    /// A publicly shared device with limited trust.
    Public,
}

/// How much the companion app may run in the background.
#[derive(Debug, Clone, Copy, PartialEq, Eq, Structural)]
pub enum BackgroundMode {
    Aggressive,
    Balanced,
    Conservative,
}

/// User settings of the companion app.
#[derive(Debug, Clone, PartialEq, Eq, Structural)]
pub struct PhoneSettings {
    /// Battery percentage below which new assignments are refused.
    pub battery_threshold: u8,
    /// Whether inference may run over cellular data.
    pub allow_cellular: bool,
    /// Largest model weights accepted, in megabytes.
    pub max_model_size_mb: u64,
    pub background_mode: BackgroundMode,
    /// Seconds between heartbeats.
    pub heartbeat_interval_s: u32,
}

impl Default for PhoneSettings {
    fn default() -> (s: Self)
        ensures
            s.battery_threshold == 20,
            !s.allow_cellular,
            s.max_model_size_mb == 3072,
            s.background_mode == BackgroundMode::Balanced,
            s.heartbeat_interval_s == 30,
    {
        PhoneSettings {
            battery_threshold: 20,
            allow_cellular: false,
            max_model_size_mb: 3072,
            background_mode: BackgroundMode::Balanced,
            heartbeat_interval_s: 30,
        }
    }
}

/// Thermal state of the device.
#[derive(Debug, Clone, Copy, PartialEq, Eq, Structural)]
pub enum ThermalState {
    /// Normal temperature.
    Normal,
    /// Elevated temperature: reduce the workload.
    Warm,
    /// Critical temperature: stop inference.
    Critical,
}

/// The network connection in use.
#[derive(Debug, Clone, Copy, PartialEq, Eq, Structural)]
pub enum ConnectionType {
    WiFi,
    Cellular,
    Ethernet,
    /// No connection.
    Disconnected,
}

/// Priority of a model assignment.
#[derive(Debug, Clone, Copy, PartialEq, Eq, Structural)]
pub enum AssignmentPriority {
    Critical,
    High,
    Normal,
    Low,
}

/// Protocol of split inference between phones.
#[derive(Debug, Clone, Copy, PartialEq, Eq, Structural)]
pub enum SplitProtocol {
    /// Tensor parallel, for links of at most 5 ms.
    TensorParallel,
    /// Pipeline parallel, for links of 5 to 50 ms.
    PipelineParallel,
}

/// Element type of activation tensors.
#[derive(Debug, Clone, Copy, PartialEq, Eq, Structural)]
pub enum TensorDtype {
    F16,
    F32,
    BF16,
    Q8_0,
}

} // verus!
