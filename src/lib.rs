//! Keeps a size-bounded on-chain fee table in step with a locally authored one:
//! validation of the desired table, reconciliation against the current table,
//! batching into transaction-sized chunks, compute-budget sizing, the
//! per-run send-mode state machine, and the reading of rate fields.

pub mod entry;
pub mod reconcile;
pub mod convergence;
pub mod validate;
pub mod batch;
pub mod ix;
pub mod budget;
pub mod dispatch;
pub mod cli;
pub mod nanos;
