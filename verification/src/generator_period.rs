//! Generator profile periods (20 Hz ticks).
use vstd::prelude::*;

verus! {

/// 0.5 s
pub const FAST: u32 = 10;

/// 1 s
pub const STANDARD: u32 = 20;

/// 5 s
pub const SLOW: u32 = 100;

} // verus!
