//! Configuration front-end for an adaptive-streaming download job.
//!
//! The crate turns raw command-line input (unit-suffixed rates, colon-delimited
//! pairs, certificate files, rewrite rules) into a validated, immutable job
//! descriptor for an external download engine, and maps the engine's outcome to
//! process exit codes.

pub mod browser;
pub mod config;
pub mod digits;
pub mod headers;
pub mod ip;
pub mod net;
pub mod outcome;
pub mod pairs;
pub mod progress;
pub mod rate;
pub mod rewrite;
pub mod text;
