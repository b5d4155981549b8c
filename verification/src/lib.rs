//! Workload capture-and-replay stress tester for MongoDB: the verified core.
//!
//! The library holds the replay engine's logic: the normalized operation
//! record and its structured command document, the operation log readers,
//! the executor's dispatch planning and scheduling decisions, the
//! revert/resume log synthesis, the metrics surface with its streaming
//! median, the cooperative stop signal, the connection-pool handout rule,
//! the record grouping key, and the audit-row conversion. Disk and
//! network I/O, the async runtime and the terminal surface live outside
//! the library and drive it through these types.

pub mod commands;
pub mod config;
pub mod convert;
pub mod document;
pub mod executor;
pub mod hash;
pub mod json;
pub mod key;
pub mod median;
pub mod metrics;
pub mod op_logs;
pub mod op_row;
pub mod regexp;
pub mod reverse;
pub mod views;
pub mod signal;
pub mod synth;
pub mod text;

pub use signal::Signal;
