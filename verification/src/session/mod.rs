//! Core ECS-to-database session: local cache, change tracking, and commit prep.
pub mod cache;
pub mod edges;
pub mod hydrate;
pub mod prepare_commit;
pub mod registries;
pub mod state;
pub mod tracking;

pub use state::PersistenceSession;
pub use tracking::DirtyState;

use vstd::prelude::*;

verus! {

/// An entity of the world, by its bits.
pub type Entity = u64;

/// A Rust type, by a number that stays the same for the life of the process.
pub type TypeId = u64;

} // verus!
