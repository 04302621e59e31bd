//! Verified core of a slow-query-log report pipeline: frequency counting,
//! deduplication, range/pattern filtering, two-stage stable sorting, and
//! console-report accounting.

pub mod config;
pub mod dedup;
pub mod filter;
pub mod freq;
pub mod pattern;
pub mod processing;
pub mod record;
pub mod sort;
