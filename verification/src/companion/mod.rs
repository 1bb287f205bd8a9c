pub mod assignment;
pub mod inference_runtime;
pub mod npu;
pub mod pairing;
pub mod types;
