//! Simulation kernel for Boxes: a sparse chunked grid of typed cells,
//! a staggered tick scheduler with dirty queues, and the cell-type rules
//! (generator, transformer, aggregator), together with the view-face and
//! surface logic used by the application shell.

mod cell;
mod chunk;
mod constants;
mod coord;
mod engine;
mod format;
mod pick;
mod playback;
pub mod generator_period;
mod schedule;
mod selection;
mod sim;
mod surface;
mod tools;
mod types;
mod view;
mod world;

pub use cell::{Cell, CellFlags, TYPE_EMPTY};
pub use chunk::Chunk;
pub use coord::{cell_at, local_index, phase, world_pos_from_local, ChunkCoord, WorldPos};
pub use constants::{
    CHUNK_SIZE, CHUNK_SIZE_USIZE, CHUNK_VOLUME, CHUNKS_PER_AXIS, DEFAULT_MAX_CELL_UPDATES_PER_TICK,
    DEFAULT_MAX_DIRTY_DRAIN_PER_TICK, MAX_STEPS_PER_FRAME, PHASE_COUNT, TICK_RATE_HZ, WORLD_SIZE,
};
pub use types::{
    aggregator_mode, generator_period, generator_should_fire, make_aggregator, make_generator,
    make_transformer, transformer_direction, CellTypeInfo, CellTypeRegistry, Direction,
    ReduceMode, TYPE_AGGREGATOR, TYPE_GENERATOR, TYPE_TRANSFORMER,
};
pub use world::{ChunkMap, World};
pub use selection::{
    clamp_pos, random_selection, recenter_on_selection, selection_weights_fit, set_orbit_anchor,
    set_selection, slice_depth, fallback_selection, OrbitAnchor, SelectedCell,
};
pub use sim::{DirtyQueues, NullHooks, SimConfig, SimHooks, Simulation};
pub use engine::CellEngine;
pub use format::{format_debug_overlay, format_depth_slice, format_inspector, format_throughput};
pub use playback::{
    rebuild_chunks_for_positions, run_sim_tick, seed_demo_world, should_accumulate_sim_time,
    SimControlButton,
    SimPlayback, SimSpeed, SimTickStats, TickReport,
};
pub use pick::{pick_surface_at_uv, uv_depth_to_cell};
pub use surface::{
    affected_chunks, cell_depth, cells_for_chunk, depth_draw_order, is_cell_visible_at_slice,
    is_on_slice, unclipped_slice_depth, view_key, visible_cells, visible_surface, SurfaceMap,
};
pub use tools::{
    apply_tool, direction_label, is_drag_repeat, reduce_mode_label, slice_step, zoom_step,
    ActiveTool, PalettePreset, SliceKeys, ToolKeys, ToolOutcome, ToolState,
};
pub use view::{ActiveView, DepthAxis, GridDir, OrthoView, ScreenDir, ViewPose};
