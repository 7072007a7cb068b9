//! Verified core of a resumable, parallel HTTP file downloader.
//!
//! The library holds the logic of the downloader: byte-range partitioning,
//! durable resume state, the hash-gated commit decision, task-list parsing,
//! filename derivation, the aggregate rate limiter, and the global progress
//! counters. The host process supplies the network and filesystem around it.

pub mod errors;
pub mod state;
pub mod text;
pub mod gate;
pub mod hashing;
pub mod tasks;
pub mod slab;
pub mod counters;
pub mod engine;
pub mod names;
pub mod statefile;
pub mod rate;
pub mod list;
pub mod provider;
