//! Core of an offline documentation mirror.
//!
//! The library covers the synchronization pipeline of the mirror: deciding
//! whether cached metadata is stale, building the cache paths and remote URLs
//! for each documentation set, persisting values through an atomic
//! write-then-rename protocol, tracking a tree of hierarchical progress
//! indicators, and driving a bounded-concurrency fan-out over the selected
//! sets.  Network and filesystem calls themselves live outside the library;
//! the library supplies the decisions, the bookkeeping, and the contracts.

use vstd::prelude::*;

pub mod cache;
pub mod config;
pub mod digits;
pub mod entity;
pub mod paths;
pub mod pool;
pub mod progress;
pub mod store;
pub mod update;

verus! {

/// Failure taxonomy of the cache store and the fetch pipeline.
///
/// `NotFound` marks a cache miss (recoverable by fetching), `ParseError`
/// names the key whose bytes did not deserialize, `IoError` marks a
/// filesystem failure, and `NetworkError` a transport failure.
#[derive(Debug)]
pub enum StoreError {
    NotFound,
    ParseError { key: String },
    IoError,
    NetworkError,
}

} // verus!
