use vstd::prelude::*;

pub mod dual;
pub mod runner;
pub mod stats;
pub mod tracker;

verus! {

/// Upper bound (exclusive) on every wall-clock timestamp the trackers accept,
/// in microseconds. Keeping timestamps below `TS_MAX` guarantees that the
/// signed difference of any two of them fits in an `i64`.
pub const TS_MAX: u64 = 0x1000_0000_0000_0000;

} // verus!
