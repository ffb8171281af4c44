//! A single-threaded buffer pool manager over a page-addressed heap file.
//!
//! The [`disk`] module models the heap file itself: a flat byte image,
//! logically split into fixed 4096-byte pages, with an append-only page id
//! allocator. The [`buffer`] module holds the cache proper: a fixed array of
//! frames recycled by clock-sweep eviction, a pin protocol that keeps a page
//! resident while any handle to it is outstanding, and dirty-page write-back.

use vstd::prelude::*;

pub mod buffer;
pub mod disk;

verus! {

} // verus!
