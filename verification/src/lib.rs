//! A verified core for a proxy-list checker: configuration derivation,
//! line-oriented input parsing, rate-limited dispatch decisions, and
//! aggregation of successful probes into a newline-terminated output.

pub mod config;
pub mod dispatch;
pub mod lines;
pub mod pipeline;
pub mod probe;
pub mod sink;
