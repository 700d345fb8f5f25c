//! Verified core of a solver-log ingestion service: a log parser that turns
//! semi-structured solver logs into a job-metadata record plus a tabular byte
//! stream, and a bounded compressed result cache with FIFO eviction.

pub mod cache;
pub mod config;
pub mod error;
pub mod header;
pub mod metric;
pub mod num;
pub mod parser;
pub mod rows;
pub mod scan;
