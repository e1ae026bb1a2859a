//! Simulation parameters.
use vstd::prelude::*;

verus! {

/// Addressable world extent per axis (cells).
pub const WORLD_SIZE: u32 = 500;

/// Cells along each chunk axis.
pub const CHUNK_SIZE: u16 = 32;

/// `CHUNK_SIZE` as a `usize`.
pub const CHUNK_SIZE_USIZE: usize = 32;

/// `CHUNK_SIZE³`.
pub const CHUNK_VOLUME: usize = 32768;

/// Chunks per axis covering the world (ceil(500 / 32) = 16).
pub const CHUNKS_PER_AXIS: u16 = 16;

/// Fixed simulation rate (Hz).
pub const TICK_RATE_HZ: u32 = 20;

/// Stagger phase count for periodic work.
pub const PHASE_COUNT: u8 = 8;

/// Initial per-frame sim step cap (render side).
pub const MAX_STEPS_PER_FRAME: u32 = 2;

/// Default cap on dirty cells processed per tick.
pub const DEFAULT_MAX_DIRTY_DRAIN_PER_TICK: usize = 125000;

/// Default cap on cell updates per tick.
pub const DEFAULT_MAX_CELL_UPDATES_PER_TICK: usize = 250000;

} // verus!
