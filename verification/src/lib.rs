//! Normalization engine for benchmark tool output.
//!
//! Raw text produced by a benchmarking tool is parsed into a canonical,
//! unit-consistent collection of metric records: every value is converted to
//! nanoseconds using exact decimal arithmetic, every benchmark name is
//! validated, and duplicate names are rejected.

pub mod adapter;
pub mod decimal;
pub mod encoding;
pub mod error;
pub mod google;
pub mod json;
pub mod metric;
pub mod name;
pub mod projects;
pub mod rbac;
pub mod results;
pub mod slugs;
pub mod testbed;
pub mod smtp;
pub mod user;
pub mod units;
