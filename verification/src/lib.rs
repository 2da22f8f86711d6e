//! Guest-memory abstraction layer for a virtual-machine platform.
//!
//! The library translates x86-64 guest virtual addresses into guest physical
//! addresses by walking the standard 4-level paging structures, and provides
//! a sparse backing store mapping page-aligned guest physical addresses to
//! 4096-byte page contents, together with a host-memory arena that hands out
//! page-aligned allocations and releases them together on teardown.

pub mod arena;
pub mod chunk;
pub mod errors;
pub mod paging;
pub mod space;
pub mod store;
