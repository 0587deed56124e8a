//! Verified core of a process-memory tracker: a time-ordered sample store
//! with statistical reductions, the sampling state machine that decides when
//! a run stops, the parser for the kernel's per-process status text, and the
//! computations behind the chart and data exports.

pub mod chart;
pub mod controller;
pub mod export;
pub mod stats;
pub mod status;
