//! Metrics aggregation and time reconciliation for storage operation logs.
//!
//! The crate takes fully materialized sets of operation records (one record
//! per storage operation: type, payload size, latency, time window, optional
//! thread/client/endpoint identifiers) and computes latency and throughput
//! statistics grouped by operation type and object-size bucket, per dataset
//! and consolidated across several datasets over their overlapping time
//! range.
//!
//! All statistics are exact integers: latency percentiles use linear
//! interpolation between order statistics and are reported in hundredths of
//! a nanosecond, means are kept as sum/count pairs, and throughput is
//! derived from raw counts and byte sums together with an effective time
//! window in nanoseconds. Rendering those exact values as decimal text is
//! left to callers.

pub mod aggregate;
pub mod breakdown;
pub mod bucket;
pub mod consolidate;
pub mod detect;
pub mod error;
pub mod lexorder;
pub mod quantile;
pub mod record;
pub mod report;
pub mod seqfacts;
pub mod skip;
pub mod sorting;
pub mod stats;
pub mod window;
