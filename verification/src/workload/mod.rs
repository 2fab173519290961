//! What the benchmarks decide and compute.

pub mod keys;
pub mod runner;
pub mod partition;
pub mod query;
pub mod query_laws;
pub mod report_laws;
pub mod result_laws;
pub mod fill;
pub mod laws;
pub mod format;
pub mod json;
pub mod parameters;
pub mod olap;
pub mod payload;
pub mod config;
pub mod experiment;
pub mod paper;
pub mod dispatcher;
pub mod oltp;
pub mod plan;
