//! A verified model of an Erlang-style runtime core, in two halves.
//!
//! The first half is a size-class segregated-storage allocator: requests are
//! rounded up to one of a fixed table of size classes (`size_class_alloc`)
//! and served from superaligned carriers (`carriers`), each split into
//! equal blocks tracked by a bitset (`blocks`). Carriers live at addresses
//! aligned to their own size, so the carrier owning a block is recovered
//! from the block's address alone.
//!
//! The second half is the term representation (`term`, `atom`, `integer`,
//! `process`) and the built-in functions over it (`erlang`, `is_key_2`,
//! `monitor_2`), together with the table of natives an interpreted program
//! can reach (`native_module`). Every function carries a contract over the
//! terms' mathematical models.

pub mod atom;
pub mod blocks;
pub mod code;
pub mod carriers;
pub mod erlang;
pub mod integer;
pub mod is_key_2;
pub mod monitor_2;
pub mod native_module;
pub mod process;
pub mod registry;
pub mod size_class_alloc;
pub mod term;

use vstd::prelude::*;

verus! {

/// Smallest integer stored directly as a small-integer term.
pub const MIN_SMALL: i64 = -576460752303423488;

/// Largest integer stored directly as a small-integer term.
pub const MAX_SMALL: i64 = 576460752303423487;

} // verus!
