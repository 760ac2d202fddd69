//! The ingest pipeline's decisions: per-cycle batching and statistics,
//! checkpoint advance, and which site clients the all-sites mode runs.
pub mod cycle;
pub mod plan;

pub use crate::checkpoint::{get, CheckpointMap};
