//! Finds where a short audio clip occurs inside a longer recording.
//!
//! The crate holds the correlation engine, the batching of decoded audio and
//! the per-episode orchestration, each stated with a contract and proved
//! against it.

pub mod accessors;
pub mod contracts;
pub mod engines;
pub mod errors;
pub mod interop;
pub mod managers;
pub mod utils;
