//! A concurrent HTTP load-generation and latency-measurement library.
//!
//! The verified core covers the dispatch-and-aggregation engine of a load
//! tester: rate shaping (flat or linear ramp-up), request preparation
//! (header parsing, method normalization, templated payload expansion),
//! per-shot outcome classification, and the streaming aggregation of
//! outcomes into a latency histogram, success/failure counters and a
//! status-code tally, from which an immutable final report is derived.
//!
//! Network I/O, the async runtime and terminal rendering live outside the
//! library; they hand plain values in and take plain values back.

pub mod aggregate;
pub mod config;
pub mod engine;
pub mod headers;
pub mod histogram;
pub mod payload;
pub mod rate;
pub mod report;
pub mod shot;
pub mod text;
