//! Fixed-capacity, reference-counted resource pools.
//!
//! The crate provides two eviction policies behind one allocator interface:
//! a flat-array pool that scans slots in index order, and a recency-ordered
//! pool that threads its slots into a circular list anchored by a sentinel.
//! Stored objects supply a finalize hook that runs exactly once when the
//! last handle to a slot is released.

pub mod arena;
pub mod array_arena;
pub mod file;
pub mod mru_arena;
pub mod sleeplock;
