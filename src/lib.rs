//! Log filtering and near-duplicate message counting.
//!
//! The library holds the per-line decisions of a log scanner: timestamp
//! extraction, the ordered filter chain, stack-trace span tracking, the
//! similarity-based message accumulator and the ordering of the final report.

pub mod text;
pub mod similarity;
pub mod accumulator;
pub mod timestamp;
pub mod filters;
pub mod config;
pub mod pipeline;
pub mod report;
pub mod guarantees;
