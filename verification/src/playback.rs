//! Playback controls, the per-tick render bookkeeping, and the demo world seed.
use vstd::prelude::*;

use crate::cell::Cell;
use crate::chunk::Chunk;
use crate::constants::CHUNK_VOLUME;
use crate::coord::{spec_world_pos_from_local, world_pos_from_local, ChunkCoord, WorldPos};
use crate::generator_period;
use crate::engine::CellEngine;
use crate::schedule::run_model;
use crate::sim::{sim_model, Simulation};
use crate::surface::{affected_chunks, spec_affected_chunks};
use crate::types::{
    make_aggregator, make_generator, make_transformer, spec_make_aggregator, spec_make_generator,
    spec_make_transformer, Direction, ReduceMode,
};
use crate::view::OrthoView;
use crate::world::{spec_with_dirty, stored_value, World};

verus! {

/// Simulation playback speed multiplier.
#[derive(Clone, Copy, Debug, PartialEq, Eq, Structural)]
pub enum SimSpeed {
    Half,
    Normal,
    Double,
}

impl Default for SimSpeed {
    fn default() -> (r: Self)
        ensures
            r == SimSpeed::Normal,
    {
        SimSpeed::Normal
    }
}

impl SimSpeed {
    pub open spec fn spec_next(self) -> SimSpeed {
        match self {
            SimSpeed::Half => SimSpeed::Normal,
            SimSpeed::Normal => SimSpeed::Double,
            SimSpeed::Double => SimSpeed::Half,
        }
    }

    pub open spec fn spec_label(self) -> Seq<char> {
        match self {
            SimSpeed::Half => "0.5x"@,
            SimSpeed::Normal => "1x"@,
            SimSpeed::Double => "2x"@,
        }
    }

    pub fn label(self) -> (r: &'static str)
        ensures
            r@ == self.spec_label(),
    {
        match self {
            SimSpeed::Half => "0.5x",
            SimSpeed::Normal => "1x",
            SimSpeed::Double => "2x",
        }
    }

    /// The next speed in the cycle 0.5x, 1x, 2x.
    pub fn next(self) -> (r: Self)
        ensures
            r == self.spec_next(),
    {
        match self {
            SimSpeed::Half => SimSpeed::Normal,
            SimSpeed::Normal => SimSpeed::Double,
            SimSpeed::Double => SimSpeed::Half,
        }
    }
}

/// Three presses of the speed control bring the speed back.
pub proof fn lemma_speed_cycle(s: SimSpeed)
    ensures
        s.spec_next().spec_next().spec_next() == s,
        s.spec_next() != s,
{
}

/// Pause, speed, and single-step controls for the simulation loop.
#[derive(Clone, Copy, Debug, PartialEq, Eq, Structural)]
pub struct SimPlayback {
    pub paused: bool,
    pub speed: SimSpeed,
    pub step_pending: bool,
    pub debug_overlay: bool,
}

impl Default for SimPlayback {
    fn default() -> (r: Self)
        ensures
            r == (SimPlayback { paused: false, speed: SimSpeed::Normal, step_pending: false, debug_overlay: false }),
    {
        SimPlayback { paused: false, speed: SimSpeed::Normal, step_pending: false, debug_overlay: false }
    }
}

/// Sim control buttons.
#[derive(Clone, Copy, Debug, PartialEq, Eq, Structural)]
pub enum SimControlButton {
    Pause,
    Step,
    Speed,
    DebugOverlay,
}

impl SimPlayback {
    /// Press a sim control: pause toggles pausing, step requests one tick,
    /// speed moves to the next speed, debug toggles the overlay.
    pub fn press(&mut self, control: SimControlButton)
        ensures
            *final(self) == match control {
                SimControlButton::Pause => SimPlayback { paused: !old(self).paused, ..*old(self) },
                SimControlButton::Step => SimPlayback { step_pending: true, ..*old(self) },
                SimControlButton::Speed => SimPlayback { speed: old(self).speed.spec_next(), ..*old(self) },
                SimControlButton::DebugOverlay => SimPlayback { debug_overlay: !old(self).debug_overlay, ..*old(self) },
            },
    {
        match control {
            SimControlButton::Pause => self.paused = !self.paused,
            SimControlButton::Step => self.step_pending = true,
            SimControlButton::Speed => self.speed = self.speed.next(),
            SimControlButton::DebugOverlay => self.debug_overlay = !self.debug_overlay,
        }
    }

    /// Caption of a control button in this playback state.
    pub fn control_label(&self, control: SimControlButton) -> (r: &'static str)
        ensures
            r@ == match control {
                SimControlButton::Pause => if self.paused { "Resume"@ } else { "Pause"@ },
                SimControlButton::Step => "Step"@,
                SimControlButton::Speed => self.speed.spec_label(),
                SimControlButton::DebugOverlay => if self.debug_overlay { "Debug*"@ } else { "Debug"@ },
            },
    {
        match control {
            SimControlButton::Pause => if self.paused {
                "Resume"
            } else {
                "Pause"
            },
            SimControlButton::Step => "Step",
            SimControlButton::Speed => self.speed.label(),
            SimControlButton::DebugOverlay => if self.debug_overlay {
                "Debug*"
            } else {
                "Debug"
            },
        }
    }

    /// Take a pending single-step request: reports whether one was pending
    /// and clears it.
    pub fn take_step_request(&mut self) -> (r: bool)
        ensures
            r == old(self).step_pending,
            *final(self) == (SimPlayback { step_pending: false, ..*old(self) }),
    {
        let r = self.step_pending;
        self.step_pending = false;
        r
    }
}

/// Whether the sim loop should advance this frame (excluding `step_pending` handling).
pub fn should_accumulate_sim_time(playback: &SimPlayback) -> (r: bool)
    ensures
        r == (!playback.paused && !playback.step_pending),
{
    !playback.paused && !playback.step_pending
}

/// Metrics from the most recent simulation tick (for HUD / debug overlay).
#[derive(Clone, Copy, Debug, PartialEq, Eq, Structural)]
pub struct SimTickStats {
    pub last_dirty_chunks: usize,
    pub last_cell_updates: u64,
}

impl Default for SimTickStats {
    fn default() -> (r: Self)
        ensures
            r.last_dirty_chunks == 0,
            r.last_cell_updates == 0,
    {
        SimTickStats { last_dirty_chunks: 0, last_cell_updates: 0 }
    }
}

/// Chunks to re-render after cells at `positions` changed: the affected
/// chunks of each position in turn (repeats kept).
pub open spec fn rebuild_chunks(positions: Seq<WorldPos>, view: OrthoView) -> Seq<ChunkCoord>
    decreases positions.len(),
{
    if positions.len() == 0 {
        Seq::empty()
    } else {
        rebuild_chunks(positions.drop_last(), view) + spec_affected_chunks(positions.last(), view)
    }
}

/// Chunks to re-render when cells at `positions` were edited.
pub fn rebuild_chunks_for_positions(positions: &[WorldPos], view: OrthoView) -> (r: Vec<ChunkCoord>)
    ensures
        r@ == rebuild_chunks(positions@, view),
{
    let mut out: Vec<ChunkCoord> = Vec::new();
    let mut i: usize = 0;
    while i < positions.len()
        invariant
            i <= positions@.len(),
            out@ == rebuild_chunks(positions@.take(i as int), view),
        decreases positions@.len() - i,
    {
        let mut more = affected_chunks(positions[i], view);
        proof {
            assert(positions@.take(i as int + 1).drop_last() =~= positions@.take(i as int));
        }
        out.append(&mut more);
        i = i + 1;
    }
    assert(positions@.take(positions@.len() as int) =~= positions@);
    out
}

/// Positions of the non-empty cells among the first `n` local indices of
/// chunk `c`, whose cells are `cells`, in local order.
pub open spec fn nonempty_locals(c: ChunkCoord, cells: Seq<Cell>, n: int) -> Seq<WorldPos>
    decreases n,
{
    if n <= 0 {
        Seq::empty()
    } else if cells[n - 1].spec_is_empty() {
        nonempty_locals(c, cells, n - 1)
    } else {
        nonempty_locals(c, cells, n - 1).push(spec_world_pos_from_local(c, n - 1))
    }
}

/// Positions of the non-empty cells of the allocated chunks among `coords`,
/// chunk by chunk, each in local order.
pub open spec fn changed_positions(world: World, coords: Seq<ChunkCoord>) -> Seq<WorldPos>
    decreases coords.len(),
{
    if coords.len() == 0 {
        Seq::empty()
    } else {
        let c = coords.last();
        changed_positions(world, coords.drop_last()) + if world.chunks.has_chunk(c) {
            nonempty_locals(c, world.chunks.chunk_cells(c), CHUNK_VOLUME as int)
        } else {
            Seq::empty()
        }
    }
}

/// What one simulation tick changed, for the renderer.
pub struct TickReport {
    /// Chunks reported dirty by the tick, in coordinate order.
    pub chunks: Vec<ChunkCoord>,
    /// Non-empty cells of those chunks.
    pub changed_positions: Vec<WorldPos>,
    /// Chunks whose instances must be rebuilt.
    pub rebuild: Vec<ChunkCoord>,
    pub stats: SimTickStats,
}

/// Append the positions of the non-empty cells of chunk `c` to `out`.
fn push_chunk_positions(c: ChunkCoord, chunk: &Chunk, out: &mut Vec<WorldPos>)
    requires
        c.spec_in_world(),
        chunk.cells@.len() == CHUNK_VOLUME,
    ensures
        final(out)@ == old(out)@ + nonempty_locals(c, chunk.cells@, CHUNK_VOLUME as int),
{
    let ghost start = out@;
    let mut i: usize = 0;
    while i < chunk.cells.len()
        invariant
            c.spec_in_world(),
            chunk.cells@.len() == CHUNK_VOLUME,
            i <= CHUNK_VOLUME,
            out@ == start + nonempty_locals(c, chunk.cells@, i as int),
        decreases CHUNK_VOLUME - i,
    {
        if !chunk.cells[i].is_empty() {
            assert(i / 1024 < 32);
            let pos = world_pos_from_local(c, i);
            out.push(pos);
            assert(out@ =~= start + nonempty_locals(c, chunk.cells@, i as int + 1));
        }
        i = i + 1;
    }
}

/// Advance the simulation one tick (running the cell rules) and report which
/// cells and chunks the renderer must refresh.
pub fn run_sim_tick(sim: &mut Simulation, view: OrthoView) -> (r: TickReport)
    requires
        old(sim).wf(),
        old(sim).tick < u64::MAX,
    ensures
        final(sim).wf(),
        final(sim).tick == old(sim).tick + 1,
        final(sim).config == old(sim).config,
        ({
            let run = run_model::<CellEngine>(
                sim_model(*old(sim)),
                old(sim).tick as int,
                1,
                old(sim).config.max_dirty_drain_per_tick,
                old(sim).config.max_cell_updates_per_tick,
            );
            &&& sim_model(*final(sim)) == run.0
            &&& forall|c: ChunkCoord| #[trigger] r.chunks@.contains(c) <==> run.1.contains(c)
        }),
        crate::sim::strictly_sorted(r.chunks@),
        final(sim).pending_chunks() == Set::<ChunkCoord>::empty(),
        forall|c: ChunkCoord| #[trigger] old(sim).pending_chunks().contains(c) ==> r.chunks@.contains(c),
        r.changed_positions@ == changed_positions(final(sim).world, r.chunks@),
        r.rebuild@ == rebuild_chunks(r.changed_positions@, view),
        r.stats.last_dirty_chunks == r.chunks@.len(),
        r.stats.last_cell_updates == (if final(sim).total_cell_updates >= old(sim).total_cell_updates {
            final(sim).total_cell_updates - old(sim).total_cell_updates
        } else {
            0
        }),
{
    let updates_before = sim.total_cell_updates;
    let chunks = sim.step_cells(1);
    let stats = SimTickStats {
        last_dirty_chunks: chunks.len(),
        last_cell_updates: sim.total_cell_updates.saturating_sub(updates_before),
    };
    let mut changed: Vec<WorldPos> = Vec::new();
    let mut i: usize = 0;
    while i < chunks.len()
        invariant
            sim.wf(),
            i <= chunks@.len(),
            changed@ == changed_positions(sim.world, chunks@.take(i as int)),
        decreases chunks@.len() - i,
    {
        let c = chunks[i];
        proof {
            assert(chunks@.take(i as int + 1).drop_last() =~= chunks@.take(i as int));
            assert(chunks@.take(i as int + 1).last() == c);
        }
        match sim.world.chunks.get_chunk(c) {
            Some(chunk) => {
                proof {
                    sim.world.chunks.lemma_chunk_dense(c);
                }
                push_chunk_positions(c, chunk, &mut changed);
            },
            None => {
                assert(changed@ =~= changed_positions(sim.world, chunks@.take(i as int + 1)));
            },
        }
        i = i + 1;
    }
    assert(chunks@.take(chunks@.len() as int) =~= chunks@);
    let rebuild = rebuild_chunks_for_positions(changed.as_slice(), view);
    TickReport { chunks, changed_positions: changed, rebuild, stats }
}

/// Corner of the demo region: the region spans 64 cells on x and z from
/// here, near the world centre.
pub open spec fn seed_origin() -> int {
    218
}

/// Position of the `n`-th seeded cell (x-major over a 64 x 64 footprint,
/// with heights cycling over eight layers).
pub open spec fn spec_seed_pos(n: int) -> WorldPos {
    let x = n / 64;
    let z = n % 64;
    WorldPos { x: (seed_origin() + x) as u16, y: (seed_origin() + (x + z) % 8) as u16, z: (seed_origin() + z) as u16 }
}

/// Cell seeded at the `n`-th position: the five seed types in turn along
/// the diagonals of the footprint.
pub open spec fn spec_seed_cell(n: int) -> Cell {
    let k = (n / 64 + n % 64) % 5;
    if k == 0 {
        spec_make_generator(generator_period::STANDARD, 0)
    } else if k == 1 {
        spec_make_transformer(Direction::PosX, 0)
    } else if k == 2 {
        spec_make_aggregator(ReduceMode::Sum, 0)
    } else if k == 3 {
        spec_make_generator(generator_period::FAST, 0)
    } else {
        spec_make_generator(generator_period::SLOW, 0)
    }
}

/// Seed index `q` would have in the footprint.
pub open spec fn seed_slot(q: WorldPos) -> int {
    (q.x - seed_origin()) * 64 + (q.z - seed_origin())
}

/// `q` is one of the first `n` seeded positions.
pub open spec fn seeded(q: WorldPos, n: int) -> bool {
    &&& seed_origin() <= q.x < seed_origin() + 64
    &&& seed_origin() <= q.z < seed_origin() + 64
    &&& 0 <= seed_slot(q) < n
    &&& q == spec_seed_pos(seed_slot(q))
}

/// The listener position the seed marks dirty.
pub open spec fn seed_marked() -> WorldPos {
    WorldPos { x: (seed_origin() + 2) as u16, y: (seed_origin() + 2) as u16, z: (seed_origin() + 2) as u16 }
}

proof fn lemma_seed_slot(n: int)
    requires
        0 <= n < 4096,
    ensures
        seed_slot(spec_seed_pos(n)) == n,
        spec_seed_pos(n).spec_in_bounds(),
        seeded(spec_seed_pos(n), n + 1),
        forall|q: WorldPos| seeded(q, n + 1) <==> (seeded(q, n) || q == spec_seed_pos(n)),
{
}

/// Seed a 64 x 64 footprint of mixed cells near the world centre and mark
/// one listener position dirty; returns the seeded positions.
pub fn seed_demo_world(sim: &mut Simulation) -> (r: Vec<WorldPos>)
    requires
        old(sim).wf(),
    ensures
        final(sim).wf(),
        final(sim).tick == old(sim).tick,
        final(sim).config == old(sim).config,
        final(sim).total_cell_updates == old(sim).total_cell_updates,
        r@ == Seq::new(4096, |n: int| spec_seed_pos(n)),
        forall|q: WorldPos|
            #[trigger] final(sim).world.cell(q) == if seeded(q, 4096) {
                spec_seed_cell(seed_slot(q))
            } else if q == seed_marked() && !old(sim).world.cell(q).spec_is_empty() {
                spec_with_dirty(old(sim).world.cell(q))
            } else {
                old(sim).world.cell(q)
            },
        final(sim).queue() == if old(sim).queue().contains(seed_marked()) {
            old(sim).queue()
        } else {
            old(sim).queue().push(seed_marked())
        },
        final(sim).pending_chunks() == old(sim).pending_chunks().insert(seed_marked().spec_chunk_coord()),
{
    let origin: u16 = 500u16.saturating_sub(64) / 2;
    let mut positions: Vec<WorldPos> = Vec::new();
    let mut x: u16 = 0;
    while x < 64
        invariant
            origin == seed_origin(),
            x <= 64,
            sim.wf(),
            sim.tick == old(sim).tick,
            sim.config == old(sim).config,
            sim.total_cell_updates == old(sim).total_cell_updates,
            sim.dirty == old(sim).dirty,
            positions@ == Seq::new(x as nat * 64, |n: int| spec_seed_pos(n)),
            forall|q: WorldPos|
                #[trigger] sim.world.cell(q) == if seeded(q, x * 64) {
                    spec_seed_cell(seed_slot(q))
                } else {
                    old(sim).world.cell(q)
                },
        decreases 64 - x,
    {
        let mut z: u16 = 0;
        while z < 64
            invariant
                origin == seed_origin(),
                x < 64,
                z <= 64,
                sim.wf(),
                sim.tick == old(sim).tick,
                sim.config == old(sim).config,
                sim.total_cell_updates == old(sim).total_cell_updates,
                sim.dirty == old(sim).dirty,
                positions@ == Seq::new(x as nat * 64 + z as nat, |n: int| spec_seed_pos(n)),
                forall|q: WorldPos|
                    #[trigger] sim.world.cell(q) == if seeded(q, x * 64 + z) {
                        spec_seed_cell(seed_slot(q))
                    } else {
                        old(sim).world.cell(q)
                    },
            decreases 64 - z,
        {
            let ghost n: int = x * 64 + z;
            let wx = origin + x;
            let wz = origin + z;
            let wy = origin + ((x + z) % 8);
            let pos = WorldPos::new(wx, wy, wz);
            let cell = match (x + z) % 5 {
                0 => make_generator(generator_period::STANDARD, 0),
                1 => make_transformer(Direction::PosX, 0),
                2 => make_aggregator(ReduceMode::Sum, 0),
                3 => make_generator(generator_period::FAST, 0),
                _ => make_generator(generator_period::SLOW, 0),
            };
            proof {
                assert(n / 64 == x && n % 64 == z);
                assert(pos == spec_seed_pos(n));
                assert(cell == spec_seed_cell(n));
                lemma_seed_slot(n);
            }
            let ghost before = sim.world;
            let _ = sim.world.set(pos, cell);
            positions.push(pos);
            proof {
                assert(positions@ =~= Seq::new(x as nat * 64 + z as nat + 1, |n: int| spec_seed_pos(n)));
                assert forall|q: WorldPos| #[trigger] sim.world.cell(q) == if seeded(q, n + 1) {
                    spec_seed_cell(seed_slot(q))
                } else {
                    old(sim).world.cell(q)
                } by {
                    assert(before.cell(q) == before.cell(q));
                    assert(sim.world.cell(q) == sim.world.cell(q));
                }
            }
            z = z + 1;
        }
        x = x + 1;
    }
    let marked = WorldPos::new(origin + 2, origin + 2, origin + 2);
    let ghost before = *sim;
    proof {
        assert(!seeded(marked, 4096));
    }
    sim.mark_dirty(marked);
    proof {
        assert(positions@ =~= Seq::new(4096, |n: int| spec_seed_pos(n)));
        assert forall|q: WorldPos| #[trigger] sim.world.cell(q) == if seeded(q, 4096) {
            spec_seed_cell(seed_slot(q))
        } else if q == seed_marked() && !old(sim).world.cell(q).spec_is_empty() {
            spec_with_dirty(old(sim).world.cell(q))
        } else {
            old(sim).world.cell(q)
        } by {
            assert(before.world.cell(q) == before.world.cell(q));
            assert(before.world.cell(marked) == old(sim).world.cell(marked));
        }
    }
    positions
}

} // verus!
