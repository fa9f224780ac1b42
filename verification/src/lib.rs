//! An in-memory, topic-partitioned message plane: bounded per-topic event
//! history, request handling, and a small query-plan evaluator.

use vstd::prelude::*;

pub mod binary;
pub mod buffer_pool;
pub mod clock;
pub mod codec;
pub mod config;
pub mod decimal;
pub mod event;
pub mod filter;
pub mod handlers;
pub mod index;
pub mod ingest;
pub mod json;
pub mod order;
pub mod pattern;
pub mod plan;
pub mod rpc;
pub mod select;
pub mod state;
pub mod store;
pub mod text;
pub mod transport;
pub mod unary;
pub mod utils;

verus! {

/// Sum of two counters.
pub fn add(left: u64, right: u64) -> (sum: u64)
    requires
        left + right <= u64::MAX,
    ensures
        sum == left + right,
{
    left + right
}

/// The version of this library.
pub fn version() -> (v: &'static str)
    ensures
        v@ == "0.1.0"@,
{
    "0.1.0"
}

} // verus!
