//! An in-process cache for remotely fetched images that are decoded and
//! handed to a GPU texture allocator by an interactive render loop.
//!
//! The cache coordinates concurrent, deduplicated, asynchronous loads
//! against a synchronous render loop, and reclaims texture handles only
//! when no other holder of an entry's load state remains.

use vstd::prelude::*;

pub mod state;
pub mod cache;
pub mod decode;
pub mod traits;
pub mod pipeline;

verus! {

} // verus!
