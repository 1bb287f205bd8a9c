//! Verified core of the ResonantOS node: agent workflow DAGs and their
//! orchestration, result caching, phone companion logic, the headless node
//! daemon, backtest command allowlisting and the pure parts of the ledger,
//! evaluator and archive services.
pub mod agent_evaluator_service;
pub mod agents;
pub mod archive_service;
pub mod backtest_service;
pub mod clock;
pub mod companion;
pub mod cost_ledger_service;
pub mod daemon;
pub mod experience_buffer_service;
pub mod ids;
pub mod paths;
pub mod sql;
pub mod text;
pub mod utf8;
