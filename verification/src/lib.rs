//! Benchmark-run configuration values: a `Speed` throughput cap with a
//! verified parser and formatter for its human-friendly textual form, an
//! `Operation` tag, and the `Config` aggregate that owns them.

pub mod config;
pub mod speed;
pub mod text;
