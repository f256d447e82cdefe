//! Host-side command bridge: a validated request/response envelope, a closed
//! command set, and a bounded in-memory key/value store with FIFO eviction.

pub mod dispatch;
pub mod envelope;
pub mod store;
pub mod text;

use vstd::prelude::*;

verus! {

/// Default capacity of the shared store.
pub const STORE_CAP: usize = 1000;

} // verus!
