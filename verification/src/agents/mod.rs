pub mod cache;
pub mod dag;
pub mod orchestrator;
pub mod protocol;
pub mod worker;
pub mod checkpoint;
pub mod colocation;
