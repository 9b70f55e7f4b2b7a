//! An in-memory client store: clients keyed by a 128-bit identity, held
//! either without bound or in a bounded store that evicts in insertion order.
pub mod entity;
pub mod handlers;
pub mod eviction;
mod index_map;
pub mod repository;
pub mod repository_impl;

use vstd::prelude::*;

verus! {

} // verus!
