//! Policy-diff support: git name-status parsing, report types and config diffing.
pub mod git;
pub mod types;
pub mod config_diff;
pub mod classify;
pub mod compensate;
pub mod report;
pub mod render;
pub mod batch;
