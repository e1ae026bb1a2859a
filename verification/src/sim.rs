//! Tick scheduler, dirty queues, and cell-behavior hooks.
use vstd::prelude::*;

use std::collections::{HashSet, VecDeque};
use vstd::std_specs::iter::IteratorSpec;

use crate::cell::Cell;
use crate::constants::{
    DEFAULT_MAX_CELL_UPDATES_PER_TICK, DEFAULT_MAX_DIRTY_DRAIN_PER_TICK, PHASE_COUNT, TICK_RATE_HZ,
};
use crate::coord::{lemma_pack3, lemma_pack3_unpack, pack3, pack3_exec, ChunkCoord, WorldPos};
use crate::engine::CellEngine;
use crate::coord::{lemma_neighbors_6_are_face_neighbors, spec_neighbors_6};
use crate::schedule::{
    cells_of, chunk_marked, chunks_of, cleared, drain_budget, drain_run, drain_step,
    phases_run, popped, process_model, propagated, run_model, stub_eligible, stub_targets, tick_model,
    drain_hooks, phases_hooks, run_hooks, tick_hooks,
    with_marks, lemma_to_set_push, DrainModel, SimModel,
};
use crate::world::{spec_with_dirty, World};

verus! {

broadcast use vstd::std_specs::hash::group_hash_axioms;

/// Per-tick budget and rate configuration.
#[derive(Clone, Copy, Debug, PartialEq, Eq, Structural)]
pub struct SimConfig {
    pub tick_rate_hz: u32,
    pub max_dirty_drain_per_tick: usize,
    pub max_cell_updates_per_tick: usize,
}

impl Default for SimConfig {
    fn default() -> (r: Self)
        ensures
            r.tick_rate_hz == TICK_RATE_HZ,
            r.max_dirty_drain_per_tick == DEFAULT_MAX_DIRTY_DRAIN_PER_TICK,
            r.max_cell_updates_per_tick == DEFAULT_MAX_CELL_UPDATES_PER_TICK,
    {
        SimConfig {
            tick_rate_hz: TICK_RATE_HZ,
            max_dirty_drain_per_tick: DEFAULT_MAX_DIRTY_DRAIN_PER_TICK,
            max_cell_updates_per_tick: DEFAULT_MAX_CELL_UPDATES_PER_TICK,
        }
    }
}

/// Set key of a position.
pub open spec fn spec_pos_key(p: WorldPos) -> u64 {
    pack3(p.x, p.y, p.z)
}

/// Set key of a chunk, ordered like chunk coordinates (x, then y, then z).
pub open spec fn spec_lex_key(c: ChunkCoord) -> u64 {
    pack3(c.z, c.y, c.x)
}

/// Chunk coordinate of a lexicographic key.
pub open spec fn spec_lex_coord(k: u64) -> ChunkCoord {
    ChunkCoord { x: ((k / 4294967296) % 65536) as u16, y: ((k / 65536) % 65536) as u16, z: (k % 65536) as u16 }
}

/// Lexicographic order on chunk coordinates (the derived `Ord`).
pub open spec fn coord_lt(a: ChunkCoord, b: ChunkCoord) -> bool {
    a.x < b.x || (a.x == b.x && (a.y < b.y || (a.y == b.y && a.z < b.z)))
}

/// Keys of the positions in a queue.
pub open spec fn queue_keys(q: Seq<WorldPos>) -> Set<u64> {
    Set::new(|k: u64| exists|i: int| 0 <= i < q.len() && spec_pos_key(q[i]) == k)
}

pub proof fn lemma_pos_key_injective(p: WorldPos, q: WorldPos)
    ensures
        spec_pos_key(p) == spec_pos_key(q) <==> p == q,
{
    lemma_pack3(p.x, p.y, p.z, q.x, q.y, q.z);
}

pub proof fn lemma_lex_key(a: ChunkCoord, b: ChunkCoord)
    ensures
        spec_lex_coord(spec_lex_key(a)) == a,
        spec_lex_key(a) == spec_lex_key(b) <==> a == b,
        spec_lex_key(a) < spec_lex_key(b) <==> coord_lt(a, b),
{
    lemma_pack3(a.z, a.y, a.x, b.z, b.y, b.x);
    lemma_pack3_unpack(a.z, a.y, a.x);
}

proof fn lemma_queue_keys_contains(q: Seq<WorldPos>, p: WorldPos)
    ensures
        queue_keys(q).contains(spec_pos_key(p)) <==> q.contains(p),
{
    if queue_keys(q).contains(spec_pos_key(p)) {
        let i = choose|i: int| 0 <= i < q.len() && spec_pos_key(q[i]) == spec_pos_key(p);
        lemma_pos_key_injective(q[i], p);
    }
    if q.contains(p) {
        let i = choose|i: int| 0 <= i < q.len() && q[i] == p;
        assert(spec_pos_key(q[i]) == spec_pos_key(p));
    }
}

proof fn lemma_queue_keys_push(q: Seq<WorldPos>, p: WorldPos)
    ensures
        queue_keys(q.push(p)) == queue_keys(q).insert(spec_pos_key(p)),
{
    assert forall|k: u64| #[trigger] queue_keys(q.push(p)).contains(k) <==> queue_keys(q).insert(spec_pos_key(p)).contains(k) by {
        if queue_keys(q.push(p)).contains(k) {
            let i = choose|i: int| 0 <= i < q.push(p).len() && spec_pos_key(q.push(p)[i]) == k;
            if i < q.len() {
                assert(q.push(p)[i] == q[i]);
            }
        }
        if queue_keys(q).contains(k) {
            let i = choose|i: int| 0 <= i < q.len() && spec_pos_key(q[i]) == k;
            assert(q.push(p)[i] == q[i]);
        }
        if k == spec_pos_key(p) {
            assert(q.push(p)[q.len() as int] == p);
        }
    }
    assert(queue_keys(q.push(p)) =~= queue_keys(q).insert(spec_pos_key(p)));
}

proof fn lemma_queue_keys_pop(q: Seq<WorldPos>)
    requires
        q.len() > 0,
        q.no_duplicates(),
    ensures
        queue_keys(q.subrange(1, q.len() as int)) == queue_keys(q).remove(spec_pos_key(q[0])),
{
    let t = q.subrange(1, q.len() as int);
    assert forall|k: u64| #[trigger] queue_keys(t).contains(k) <==> queue_keys(q).remove(spec_pos_key(q[0])).contains(k) by {
        if queue_keys(t).contains(k) {
            let i = choose|i: int| 0 <= i < t.len() && spec_pos_key(t[i]) == k;
            assert(t[i] == q[i + 1]);
            lemma_pos_key_injective(q[i + 1], q[0]);
        }
        if queue_keys(q).contains(k) && k != spec_pos_key(q[0]) {
            let i = choose|i: int| 0 <= i < q.len() && spec_pos_key(q[i]) == k;
            assert(i != 0);
            assert(t[i - 1] == q[i]);
        }
    }
    assert(queue_keys(t) =~= queue_keys(q).remove(spec_pos_key(q[0])));
}

/// Coordinates in strictly increasing order (hence distinct).
pub open spec fn strictly_sorted(s: Seq<ChunkCoord>) -> bool {
    forall|i: int, j: int| 0 <= i < j < s.len() ==> coord_lt(#[trigger] s[i], #[trigger] s[j])
}

/// Executable `coord_lt`.
fn coord_less(a: ChunkCoord, b: ChunkCoord) -> (r: bool)
    ensures
        r == coord_lt(a, b),
{
    a.x < b.x || (a.x == b.x && (a.y < b.y || (a.y == b.y && a.z < b.z)))
}

/// Insert `c` into a strictly sorted vector unless present.
fn sorted_insert(v: &mut Vec<ChunkCoord>, c: ChunkCoord)
    requires
        strictly_sorted(old(v)@),
    ensures
        strictly_sorted(final(v)@),
        forall|d: ChunkCoord| #[trigger] final(v)@.contains(d) <==> (old(v)@.contains(d) || d == c),
{
    let mut i: usize = 0;
    while i < v.len()
        invariant
            i <= v@.len(),
            v@ == old(v)@,
            strictly_sorted(v@),
            forall|j: int| 0 <= j < i ==> coord_lt(#[trigger] v@[j], c),
        ensures
            i <= v@.len(),
            v@ == old(v)@,
            forall|j: int| 0 <= j < i ==> coord_lt(#[trigger] v@[j], c),
            i < v@.len() ==> !coord_lt(v@[i as int], c),
        decreases v@.len() - i,
    {
        if !coord_less(v[i], c) {
            break;
        }
        i = i + 1;
    }
    if i < v.len() && v[i] == c {
        return;
    }
    let ghost before = v@;
    v.insert(i, c);
    proof {
        assert(v@ == before.insert(i as int, c));
        assert forall|a: int, b: int| 0 <= a < b < v@.len() implies coord_lt(#[trigger] v@[a], #[trigger] v@[b]) by {
            if b < i {
                assert(v@[a] == before[a] && v@[b] == before[b]);
            } else if b == i {
                assert(v@[a] == before[a]);
            } else if a < i {
                assert(v@[a] == before[a] && v@[b] == before[b - 1]);
                assert(coord_lt(before[a], c));
                assert(!coord_lt(before[i as int], c));
            } else if a == i {
                assert(v@[b] == before[b - 1]);
                if b - 1 > i {
                    assert(coord_lt(before[i as int], before[b - 1]));
                }
                assert(!coord_lt(before[i as int], c));
            } else {
                assert(v@[a] == before[a - 1] && v@[b] == before[b - 1]);
            }
        }
        assert forall|d: ChunkCoord| #[trigger] v@.contains(d) <==> (before.contains(d) || d == c) by {
            if v@.contains(d) {
                let k = choose|k: int| 0 <= k < v@.len() && v@[k] == d;
                if k < i {
                    assert(before[k] == d);
                } else if k > i {
                    assert(before[k - 1] == d);
                }
            }
            if before.contains(d) {
                let k = choose|k: int| 0 <= k < before.len() && before[k] == d;
                if k < i {
                    assert(v@[k] == d);
                } else {
                    assert(v@[k + 1] == d);
                }
            }
            if d == c {
                assert(v@[i as int] == c);
            }
        }
    }
}

/// Executable `spec_lex_coord`.
fn lex_coord(k: u64) -> (r: ChunkCoord)
    ensures
        r == spec_lex_coord(k),
{
    ChunkCoord::new(((k / 4294967296) % 65536) as u16, ((k / 65536) % 65536) as u16, (k % 65536) as u16)
}

/// Hooks for cell-type logic.
///
/// Each hook's effect on the simulation is a function of the simulation's
/// model alone, named by `dirty_model` and `phase_model`. Hooks keep the
/// simulation well-formed, leave the tick counter and configuration alone,
/// and never withdraw chunks already reported dirty.
pub trait SimHooks: Sized {
    /// The model after `on_dirty_cell` processed `pos` (by default, the
    /// model unchanged).
    open spec fn dirty_model(m: SimModel, pos: WorldPos) -> SimModel {
        m
    }

    /// The model after `on_phase_tick` ran phase bucket `phase` on `tick`
    /// (by default, the model unchanged).
    open spec fn phase_model(m: SimModel, tick: u64, phase: u8) -> SimModel {
        m
    }

    /// The hooks themselves after `on_dirty_cell` processed `pos` in a
    /// simulation with model `m` (by default, unchanged).
    open spec fn after_dirty(self, m: SimModel, pos: WorldPos) -> Self {
        self
    }

    /// The hooks themselves after `on_phase_tick` ran phase bucket `phase`
    /// on `tick` in a simulation with model `m` (by default, unchanged).
    open spec fn after_phase(self, m: SimModel, tick: u64, phase: u8) -> Self {
        self
    }

    /// Process one dirty cell (transformer / aggregator entry point).
    fn on_dirty_cell(&mut self, sim: &mut Simulation, pos: WorldPos)
        requires
            old(sim).wf(),
        ensures
            final(sim).wf(),
            final(sim).tick == old(sim).tick,
            final(sim).config == old(sim).config,
            old(sim).pending_chunks().subset_of(final(sim).pending_chunks()),
            sim_model(*final(sim)) == Self::dirty_model(sim_model(*old(sim)), pos),
            *final(self) == old(self).after_dirty(sim_model(*old(sim)), pos),
    ;

    /// Periodic generator scheduling entry point for one phase bucket.
    fn on_phase_tick(&mut self, sim: &mut Simulation, tick: u64, phase: u8)
        requires
            old(sim).wf(),
        ensures
            final(sim).wf(),
            final(sim).tick == old(sim).tick,
            final(sim).config == old(sim).config,
            old(sim).pending_chunks().subset_of(final(sim).pending_chunks()),
            sim_model(*final(sim)) == Self::phase_model(sim_model(*old(sim)), tick, phase),
            *final(self) == old(self).after_phase(sim_model(*old(sim)), tick, phase),
    ;
}

/// The scheduler's model of a simulation.
pub open spec fn sim_model(sim: Simulation) -> SimModel {
    SimModel {
        cells: cells_of(sim.world),
        queue: sim.queue(),
        drained: sim.dirty.drained(),
        pending: sim.pending_chunks(),
        updates: sim.total_cell_updates,
    }
}

/// Default no-op hooks.
#[derive(Clone, Copy, Debug, Default)]
pub struct NullHooks;

impl SimHooks for NullHooks {
    fn on_dirty_cell(&mut self, sim: &mut Simulation, pos: WorldPos) {
    }

    fn on_phase_tick(&mut self, sim: &mut Simulation, tick: u64, phase: u8) {
    }
}

/// The scheduler's dirty bookkeeping: a duplicate-free queue of positions
/// awaiting re-evaluation (mirrored by a key set), the positions drained in
/// the current tick, and the chunks marked dirty since the last report.
#[derive(Debug)]
pub struct DirtyQueues {
    queue: VecDeque<WorldPos>,
    queued: HashSet<u64>,
    drained: HashSet<u64>,
    chunks: HashSet<u64>,
}

impl DirtyQueues {
    /// The queue, front first.
    pub closed spec fn queue(self) -> Seq<WorldPos> {
        self.queue@
    }

    /// Positions drained in the current tick.
    pub closed spec fn drained(self) -> Set<WorldPos> {
        Set::new(|p: WorldPos| self.drained@.contains(spec_pos_key(p)))
    }

    /// Chunks marked dirty since the last report.
    pub closed spec fn pending_chunks(self) -> Set<ChunkCoord> {
        Set::new(|c: ChunkCoord| self.chunks@.contains(spec_lex_key(c)))
    }

    /// The queue holds distinct in-world positions, mirrored by the key set.
    pub closed spec fn wf(self) -> bool {
        &&& self.queue@.no_duplicates()
        &&& forall|i: int| 0 <= i < self.queue@.len() ==> (#[trigger] self.queue@[i]).spec_in_bounds()
        &&& self.queued@ == queue_keys(self.queue@)
        &&& forall|k: u64| #[trigger] self.chunks@.contains(k) ==> k == spec_lex_key(spec_lex_coord(k))
    }

    pub fn new() -> (r: Self)
        ensures
            r.wf(),
            r.queue() == Seq::<WorldPos>::empty(),
            r.drained() == Set::<WorldPos>::empty(),
            r.pending_chunks() == Set::<ChunkCoord>::empty(),
    {
        let r = DirtyQueues {
            queue: VecDeque::new(),
            queued: HashSet::new(),
            drained: HashSet::new(),
            chunks: HashSet::new(),
        };
        assert(queue_keys(r.queue@) =~= Set::<u64>::empty());
        assert(r.pending_chunks() =~= Set::<ChunkCoord>::empty());
        assert(r.drained() =~= Set::<WorldPos>::empty());
        r
    }

    pub fn len(&self) -> (r: usize)
        ensures
            r == self.queue().len(),
    {
        self.queue.len()
    }

    /// Whether `pos` waits in the queue.
    pub fn is_queued(&self, pos: WorldPos) -> (r: bool)
        requires
            self.wf(),
        ensures
            r == self.queue().contains(pos),
    {
        proof {
            lemma_queue_keys_contains(self.queue@, pos);
        }
        self.queued.contains(&pack3_exec(pos.x, pos.y, pos.z))
    }

    /// Whether `pos` was drained in the current tick.
    pub fn was_drained(&self, pos: WorldPos) -> (r: bool)
        ensures
            r == self.drained().contains(pos),
    {
        self.drained.contains(&pack3_exec(pos.x, pos.y, pos.z))
    }

    /// Append in-world `pos` unless already queued.
    pub fn enqueue(&mut self, pos: WorldPos)
        requires
            old(self).wf(),
            pos.spec_in_bounds(),
        ensures
            final(self).wf(),
            final(self).queue() == if old(self).queue().contains(pos) {
                old(self).queue()
            } else {
                old(self).queue().push(pos)
            },
            final(self).drained() == old(self).drained(),
            final(self).pending_chunks() == old(self).pending_chunks(),
    {
        let ghost q = self.queue@;
        proof {
            lemma_queue_keys_contains(q, pos);
        }
        if self.queued.insert(pack3_exec(pos.x, pos.y, pos.z)) {
            self.queue.push_back(pos);
            proof {
                lemma_queue_keys_push(q, pos);
                assert forall|i: int| 0 <= i < self.queue@.len() implies (#[trigger] self.queue@[i]).spec_in_bounds() by {
                    if i < q.len() {
                        assert(self.queue@[i] == q[i]);
                    }
                }
                assert(self.queue@.no_duplicates()) by {
                    assert forall|i: int, j: int| 0 <= i < j < self.queue@.len() implies self.queue@[i] != self.queue@[j] by {
                        assert(self.queue@[i] == q[i]);
                        if j < q.len() {
                            assert(self.queue@[j] == q[j]);
                        } else {
                            assert(q.contains(q[i]));
                        }
                    }
                }
            }
        } else {
            proof {
                assert(self.queued@ =~= queue_keys(q));
            }
        }
    }

    /// Remove and return the front of the queue, recording it as drained.
    pub fn pop_front(&mut self) -> (r: Option<WorldPos>)
        requires
            old(self).wf(),
        ensures
            final(self).wf(),
            final(self).pending_chunks() == old(self).pending_chunks(),
            match r {
                Some(p) => {
                    &&& old(self).queue().len() > 0
                    &&& p == old(self).queue()[0]
                    &&& p.spec_in_bounds()
                    &&& final(self).queue() == old(self).queue().subrange(1, old(self).queue().len() as int)
                    &&& final(self).drained() == old(self).drained().insert(p)
                },
                None => {
                    &&& old(self).queue().len() == 0
                    &&& final(self).queue() == old(self).queue()
                    &&& final(self).drained() == old(self).drained()
                },
            },
    {
        let ghost q = self.queue@;
        match self.queue.pop_front() {
            Some(pos) => {
                proof {
                    lemma_queue_keys_pop(q);
                    assert forall|i: int| 0 <= i < self.queue@.len() implies (#[trigger] self.queue@[i]).spec_in_bounds() by {
                        assert(self.queue@[i] == q[i + 1]);
                    }
                    assert(self.queue@.no_duplicates()) by {
                        assert forall|i: int, j: int| 0 <= i < j < self.queue@.len() implies self.queue@[i] != self.queue@[j] by {
                            assert(self.queue@[i] == q[i + 1]);
                            assert(self.queue@[j] == q[j + 1]);
                        }
                    }
                }
                self.queued.remove(&pack3_exec(pos.x, pos.y, pos.z));
                self.drained.insert(pack3_exec(pos.x, pos.y, pos.z));
                proof {
                    assert forall|p: WorldPos| #[trigger] self.drained().contains(p) <==> old(self).drained().insert(pos).contains(p) by {
                        lemma_pos_key_injective(p, pos);
                    }
                    assert(self.drained() =~= old(self).drained().insert(pos));
                }
                Some(pos)
            },
            None => None,
        }
    }

    /// Forget the positions drained in the previous tick.
    pub fn clear_drained(&mut self)
        requires
            old(self).wf(),
        ensures
            final(self).wf(),
            final(self).queue() == old(self).queue(),
            final(self).pending_chunks() == old(self).pending_chunks(),
            final(self).drained() == Set::<WorldPos>::empty(),
    {
        self.drained.clear();
        assert(self.drained() =~= Set::<WorldPos>::empty());
    }

    /// Move the pending chunks into the sorted accumulator `acc`.
    pub fn drain_chunks_into(&mut self, acc: &mut Vec<ChunkCoord>)
        requires
            old(self).wf(),
            strictly_sorted(old(acc)@),
        ensures
            final(self).wf(),
            final(self).queue() == old(self).queue(),
            final(self).drained() == old(self).drained(),
            final(self).pending_chunks() == Set::<ChunkCoord>::empty(),
            strictly_sorted(final(acc)@),
            forall|d: ChunkCoord| #[trigger] final(acc)@.contains(d) <==> (old(acc)@.contains(d) || old(self).pending_chunks().contains(d)),
    {
        let ghost keys = self.chunks@;
        let ghost acc0 = acc@;
        let iter = self.chunks.iter();
        proof {
            assert(iter.remaining().unref().to_set() == keys);
            assert forall|j: int| 0 <= j < iter.remaining().len() implies keys.contains(*#[trigger] iter.remaining()[j]) by {
                assert(iter.remaining().unref()[j] == *iter.remaining()[j]);
                assert(iter.remaining().unref().contains(*iter.remaining()[j]));
            }
        }
        for k in it: iter
            invariant
                keys == self.chunks@,
                forall|k: u64| #[trigger] keys.contains(k) ==> k == spec_lex_key(spec_lex_coord(k)),
                forall|j: int| 0 <= j < it.seq().len() ==> keys.contains(*#[trigger] it.seq()[j]),
                strictly_sorted(acc@),
                forall|d: ChunkCoord| #[trigger] acc@.contains(d) <==> (acc0.contains(d) || exists|j: int| 0 <= j < it.index() && spec_lex_key(d) == *it.seq()[j]),
        {
            let c = lex_coord(*k);
            let ghost before = acc@;
            sorted_insert(acc, c);
            proof {
                assert forall|d: ChunkCoord| #[trigger] acc@.contains(d) <==> (acc0.contains(d) || exists|j: int| 0 <= j < it.index() + 1 && spec_lex_key(d) == *it.seq()[j]) by {
                    assert(*it.seq()[it.index()] == *k);
                    assert(keys.contains(*k));
                    lemma_lex_key(d, c);
                    if d == c {
                        assert(spec_lex_key(d) == *it.seq()[it.index()]);
                    }
                }
            }
        }
        self.chunks.clear();
        assert(self.pending_chunks() =~= Set::<ChunkCoord>::empty());
    }

    /// Mark chunk `coord` dirty.
    pub fn mark_chunk(&mut self, coord: ChunkCoord)
        requires
            old(self).wf(),
        ensures
            final(self).wf(),
            final(self).queue() == old(self).queue(),
            final(self).drained() == old(self).drained(),
            final(self).pending_chunks() == old(self).pending_chunks().insert(coord),
    {
        self.chunks.insert(pack3_exec(coord.z, coord.y, coord.x));
        proof {
            lemma_lex_key(coord, coord);
            assert forall|c: ChunkCoord| #[trigger] self.pending_chunks().contains(c) <==> old(self).pending_chunks().insert(coord).contains(c) by {
                lemma_lex_key(c, coord);
            }
            assert(self.pending_chunks() =~= old(self).pending_chunks().insert(coord));
        }
    }
}

impl Default for DirtyQueues {
    fn default() -> (r: Self)
        ensures
            r.wf(),
            r.queue() == Seq::<WorldPos>::empty(),
            r.drained() == Set::<WorldPos>::empty(),
            r.pending_chunks() == Set::<ChunkCoord>::empty(),
    {
        DirtyQueues::new()
    }
}

/// Engine-agnostic simulation kernel.
#[derive(Debug)]
pub struct Simulation {
    pub world: World,
    pub tick: u64,
    pub config: SimConfig,
    pub total_cell_updates: u64,
    pub dirty: DirtyQueues,
}

impl Default for Simulation {
    fn default() -> (r: Self)
        ensures
            r.wf(),
            r.tick == 0,
            r.total_cell_updates == 0,
            r.queue() == Seq::<WorldPos>::empty(),
            r.pending_chunks() == Set::<ChunkCoord>::empty(),
            forall|p: WorldPos| #[trigger] r.world.cell(p) == Cell::spec_empty(),
    {
        Simulation::new()
    }
}

impl Simulation {
    /// The dirty queue, front first.
    pub open spec fn queue(self) -> Seq<WorldPos> {
        self.dirty.queue()
    }

    /// Chunks marked dirty since the last report.
    pub open spec fn pending_chunks(self) -> Set<ChunkCoord> {
        self.dirty.pending_chunks()
    }

    pub open spec fn wf(self) -> bool {
        self.world.wf() && self.dirty.wf()
    }

    pub fn new() -> (r: Self)
        ensures
            r.wf(),
            r.tick == 0,
            r.total_cell_updates == 0,
            r.config.tick_rate_hz == TICK_RATE_HZ,
            r.config.max_dirty_drain_per_tick == DEFAULT_MAX_DIRTY_DRAIN_PER_TICK,
            r.config.max_cell_updates_per_tick == DEFAULT_MAX_CELL_UPDATES_PER_TICK,
            r.queue() == Seq::<WorldPos>::empty(),
            r.pending_chunks() == Set::<ChunkCoord>::empty(),
            r.dirty.drained() == Set::<WorldPos>::empty(),
            r.world.chunks.spec_chunk_count() == 0,
            forall|p: WorldPos| #[trigger] r.world.cell(p) == Cell::spec_empty(),
    {
        Self::with_config(SimConfig::default())
    }

    pub fn with_config(config: SimConfig) -> (r: Self)
        ensures
            r.wf(),
            r.tick == 0,
            r.total_cell_updates == 0,
            r.config == config,
            r.queue() == Seq::<WorldPos>::empty(),
            r.pending_chunks() == Set::<ChunkCoord>::empty(),
            r.dirty.drained() == Set::<WorldPos>::empty(),
            r.world.chunks.spec_chunk_count() == 0,
            forall|p: WorldPos| #[trigger] r.world.cell(p) == Cell::spec_empty(),
    {
        Simulation { world: World::new(), tick: 0, config, total_cell_updates: 0, dirty: DirtyQueues::new() }
    }

    /// Number of positions waiting in the dirty queue.
    pub fn dirty_queue_len(&self) -> (r: usize)
        ensures
            r == self.queue().len(),
    {
        self.dirty.len()
    }

    /// Report chunk `coord` dirty for the next step.
    pub fn mark_chunk_dirty(&mut self, coord: ChunkCoord)
        requires
            old(self).wf(),
        ensures
            final(self).wf(),
            final(self).world == old(self).world,
            final(self).tick == old(self).tick,
            final(self).config == old(self).config,
            final(self).total_cell_updates == old(self).total_cell_updates,
            final(self).queue() == old(self).queue(),
            final(self).dirty.drained() == old(self).dirty.drained(),
            final(self).pending_chunks() == old(self).pending_chunks().insert(coord),
    {
        self.dirty.mark_chunk(coord);
    }

    /// Count one cell update (saturating).
    pub fn record_cell_update(&mut self)
        ensures
            *final(self) == (Simulation {
                total_cell_updates: if old(self).total_cell_updates < u64::MAX {
                    (old(self).total_cell_updates + 1) as u64
                } else {
                    old(self).total_cell_updates
                },
                ..*old(self)
            }),
    {
        self.total_cell_updates = self.total_cell_updates.saturating_add(1);
    }

    /// Enqueue a cell for event-driven re-evaluation: sets its dirty bit,
    /// appends it to the queue unless already queued, and reports its chunk.
    pub fn mark_dirty(&mut self, pos: WorldPos)
        requires
            old(self).wf(),
        ensures
            final(self).wf(),
            final(self).tick == old(self).tick,
            final(self).config == old(self).config,
            final(self).total_cell_updates == old(self).total_cell_updates,
            !pos.spec_in_bounds() ==> *final(self) == *old(self),
            pos.spec_in_bounds() ==> {
                &&& final(self).queue() == if old(self).queue().contains(pos) {
                    old(self).queue()
                } else {
                    old(self).queue().push(pos)
                }
                &&& final(self).pending_chunks() == old(self).pending_chunks().insert(pos.spec_chunk_coord())
                &&& final(self).dirty.drained() == old(self).dirty.drained()
                &&& (!old(self).world.cell(pos).spec_is_empty() ==> old(self).world.chunks.cells_after_set(
                    final(self).world.chunks,
                    pos,
                    spec_with_dirty(old(self).world.cell(pos)),
                ))
                &&& (old(self).world.cell(pos).spec_is_empty() ==> old(self).world.same_cells(final(self).world))
            },
    {
        if !pos.is_in_bounds() {
            return;
        }
        let _ = self.world.mark_dirty(pos);
        self.dirty.enqueue(pos);
        self.dirty.mark_chunk(pos.chunk_coord());
    }

    /// Advance the simulation by `ticks` steps with no cell behaviors. Returns
    /// the chunks dirtied, in coordinate order. Each tick drains the dirty
    /// queue within the budgets (clearing dirty bits and enqueueing eligible
    /// neighbors) as `run_model` describes; no update is counted.
    pub fn step(&mut self, ticks: u32) -> (r: Vec<ChunkCoord>)
        requires
            old(self).wf(),
            old(self).tick + ticks <= u64::MAX,
        ensures
            final(self).wf(),
            final(self).tick == old(self).tick + ticks,
            final(self).config == old(self).config,
            final(self).total_cell_updates == old(self).total_cell_updates,
            strictly_sorted(r@),
            ({
                let run = run_model::<NullHooks>(
                    sim_model(*old(self)),
                    old(self).tick as int,
                    ticks as nat,
                    old(self).config.max_dirty_drain_per_tick,
                    old(self).config.max_cell_updates_per_tick,
                );
                &&& sim_model(*final(self)) == run.0
                &&& forall|c: ChunkCoord| #[trigger] r@.contains(c) <==> run.1.contains(c)
            }),
    {
        let mut hooks = NullHooks;
        let r = self.step_with_hooks(ticks, &mut hooks);
        proof {
            lemma_null_run_keeps_updates(
                sim_model(*old(self)),
                old(self).tick as int,
                ticks as nat,
                old(self).config.max_dirty_drain_per_tick,
                old(self).config.max_cell_updates_per_tick,
            );
        }
        r
    }

    /// Advance the simulation by `ticks` steps running the generator,
    /// transformer, and aggregator rules, as `run_model` describes with the
    /// rules of `CellEngine`.
    pub fn step_cells(&mut self, ticks: u32) -> (r: Vec<ChunkCoord>)
        requires
            old(self).wf(),
            old(self).tick + ticks <= u64::MAX,
        ensures
            final(self).wf(),
            final(self).tick == old(self).tick + ticks,
            final(self).config == old(self).config,
            strictly_sorted(r@),
            ({
                let run = run_model::<CellEngine>(
                    sim_model(*old(self)),
                    old(self).tick as int,
                    ticks as nat,
                    old(self).config.max_dirty_drain_per_tick,
                    old(self).config.max_cell_updates_per_tick,
                );
                &&& sim_model(*final(self)) == run.0
                &&& forall|c: ChunkCoord| #[trigger] r@.contains(c) <==> run.1.contains(c)
            }),
            ticks == 0 ==> r@.len() == 0,
            ticks > 0 ==> final(self).pending_chunks() == Set::<ChunkCoord>::empty(),
            ticks > 0 ==> forall|c: ChunkCoord| #[trigger] old(self).pending_chunks().contains(c) ==> r@.contains(c),
    {
        let mut engine = CellEngine::new();
        self.step_with_hooks(ticks, &mut engine)
    }

    /// Advance with custom hooks. Each tick drains the dirty queue within the
    /// configured budgets (running the dirty hook on each drained cell and
    /// propagating to non-empty face neighbors), then runs the eight phase
    /// buckets, as `run_model` describes (the hooks end as `run_hooks`
    /// says). Returns every chunk reported dirty
    /// during the call (including those pending before it), in coordinate
    /// order.
    pub fn step_with_hooks<H: SimHooks>(&mut self, ticks: u32, hooks: &mut H) -> (r: Vec<ChunkCoord>)
        requires
            old(self).wf(),
            old(self).tick + ticks <= u64::MAX,
        ensures
            final(self).wf(),
            final(self).tick == old(self).tick + ticks,
            final(self).config == old(self).config,
            strictly_sorted(r@),
            ({
                let run = run_model::<H>(
                    sim_model(*old(self)),
                    old(self).tick as int,
                    ticks as nat,
                    old(self).config.max_dirty_drain_per_tick,
                    old(self).config.max_cell_updates_per_tick,
                );
                &&& sim_model(*final(self)) == run.0
                &&& forall|c: ChunkCoord| #[trigger] r@.contains(c) <==> run.1.contains(c)
            }),
            ticks == 0 ==> r@.len() == 0,
            ticks > 0 ==> final(self).pending_chunks() == Set::<ChunkCoord>::empty(),
            ticks > 0 ==> forall|c: ChunkCoord| #[trigger] old(self).pending_chunks().contains(c) ==> r@.contains(c),
            *final(hooks) == run_hooks::<H>(
                sim_model(*old(self)),
                *old(hooks),
                old(self).tick as int,
                ticks as nat,
                old(self).config.max_dirty_drain_per_tick,
                old(self).config.max_cell_updates_per_tick,
            ),
    {
        let ghost config0 = self.config;
        let ghost md = config0.max_dirty_drain_per_tick;
        let ghost mu = config0.max_cell_updates_per_tick;
        let ghost whole = run_model::<H>(sim_model(*self), self.tick as int, ticks as nat, md, mu);
        let ghost whole_hooks = run_hooks::<H>(sim_model(*self), *hooks, self.tick as int, ticks as nat, md, mu);
        let mut all_dirty: Vec<ChunkCoord> = Vec::new();
        let mut n: u32 = 0;
        while n < ticks
            invariant
                self.wf(),
                n <= ticks,
                self.tick == old(self).tick + n,
                old(self).tick + ticks <= u64::MAX,
                self.config == config0,
                md == config0.max_dirty_drain_per_tick,
                mu == config0.max_cell_updates_per_tick,
                strictly_sorted(all_dirty@),
                n == 0 ==> all_dirty@.len() == 0 && self.pending_chunks() == old(self).pending_chunks(),
                n > 0 ==> self.pending_chunks() == Set::<ChunkCoord>::empty(),
                n > 0 ==> forall|c: ChunkCoord| #[trigger] old(self).pending_chunks().contains(c) ==> all_dirty@.contains(c),
                run_hooks::<H>(sim_model(*self), *hooks, self.tick as int, (ticks - n) as nat, md, mu) == whole_hooks,
                ({
                    let rest = run_model::<H>(sim_model(*self), self.tick as int, (ticks - n) as nat, md, mu);
                    &&& rest.0 == whole.0
                    &&& forall|c: ChunkCoord| #[trigger] whole.1.contains(c) <==> (all_dirty@.contains(c) || rest.1.contains(c))
                }),
            decreases ticks - n,
        {
            let ghost before = *self;
            let ghost acc0 = all_dirty@;
            self.tick_one(hooks);
            let ghost ticked = *self;
            self.dirty.drain_chunks_into(&mut all_dirty);
            proof {
                if n == 0 {
                    assert forall|c: ChunkCoord| #[trigger] old(self).pending_chunks().contains(c) implies all_dirty@.contains(c) by {
                        assert(ticked.pending_chunks().contains(c));
                    }
                }
                let m1 = tick_model::<H>(sim_model(before), before.tick, md, mu);
                assert(sim_model(ticked) == m1);
                assert(sim_model(*self) =~= SimModel { pending: Set::empty(), ..m1 });
                assert((ticks - n) as nat - 1 == (ticks - (n + 1)) as nat);
                assert(before.tick as int + 1 == self.tick as int);
                assert forall|c: ChunkCoord| #[trigger] all_dirty@.contains(c) <==> (acc0.contains(c) || m1.pending.contains(c)) by {}
            }
            n = n + 1;
        }
        all_dirty
    }

    /// Process a cell just drained from the queue: clear its dirty bit, run
    /// the hook, report its chunk, and (while the budget lasts) propagate to
    /// its neighbors. Returns the update count after it.
    fn process_drained<H: SimHooks>(&mut self, hooks: &mut H, pos: WorldPos, updates: usize, max_updates: usize) -> (r: usize)
        requires
            old(self).wf(),
            pos.spec_in_bounds(),
            updates < max_updates,
        ensures
            final(self).wf(),
            final(self).tick == old(self).tick,
            final(self).config == old(self).config,
            old(self).pending_chunks().subset_of(final(self).pending_chunks()),
            updates + 1 <= r <= max_updates,
            ({
                let p = process_model::<H>(sim_model(*old(self)), pos, updates as int, max_updates as int);
                &&& sim_model(*final(self)) == p.m
                &&& r == p.count
            }),
            *final(hooks) == old(hooks).after_dirty(cleared(sim_model(*old(self)), pos), pos),
    {
        let ghost m0 = sim_model(*self);
        self.world.clear_dirty_flag(pos);
        proof {
            assert(cells_of(self.world) =~= cleared(m0, pos).cells);
            assert(sim_model(*self) =~= cleared(m0, pos));
        }
        hooks.on_dirty_cell(self, pos);
        let ghost m1 = sim_model(*self);
        self.dirty.mark_chunk(pos.chunk_coord());
        proof {
            assert(sim_model(*self) =~= chunk_marked(m1, pos.spec_chunk_coord()));
        }
        let mut next = updates + 1;
        let ghost m2 = sim_model(*self);
        if next < max_updates {
            let added = self.propagate_dirty_stub(pos, max_updates - next);
            proof {
                assert(cells_of(self.world) =~= propagated(m2, pos, (max_updates - next) as int).cells);
                assert(sim_model(*self) =~= propagated(m2, pos, (max_updates - next) as int));
            }
            next = next + added;
        }
        next
    }

    /// One tick: drain the dirty queue, run the phase buckets, advance the
    /// tick, as `tick_model` describes.
    fn tick_one<H: SimHooks>(&mut self, hooks: &mut H)
        requires
            old(self).wf(),
            old(self).tick < u64::MAX,
        ensures
            final(self).wf(),
            final(self).tick == old(self).tick + 1,
            final(self).config == old(self).config,
            old(self).pending_chunks().subset_of(final(self).pending_chunks()),
            sim_model(*final(self)) == tick_model::<H>(
                sim_model(*old(self)),
                old(self).tick,
                old(self).config.max_dirty_drain_per_tick,
                old(self).config.max_cell_updates_per_tick,
            ),
            *final(hooks) == tick_hooks::<H>(
                sim_model(*old(self)),
                *old(hooks),
                old(self).tick,
                old(self).config.max_dirty_drain_per_tick,
                old(self).config.max_cell_updates_per_tick,
            ),
    {
        let mut updates: usize = 0;
        let max_updates = self.config.max_cell_updates_per_tick;
        let max_drain = if self.config.max_dirty_drain_per_tick < max_updates {
            self.config.max_dirty_drain_per_tick
        } else {
            max_updates
        };
        let ghost tick0 = self.tick;
        let ghost pending0 = self.pending_chunks();
        let ghost config0 = self.config;
        let ghost m0 = SimModel { drained: Set::empty(), ..sim_model(*self) };
        self.dirty.clear_drained();
        proof {
            assert(sim_model(*self) =~= m0);
        }
        let ghost mut d = DrainModel { m: m0, count: 0 };
        let ghost target = drain_run::<H>(d, max_drain as int, max_updates as int, max_drain as nat);
        let ghost target_hooks = drain_hooks::<H>(d, *hooks, max_drain as int, max_updates as int, max_drain as nat);
        let ghost mut k: int = 0;
        // 1. Drain the dirty queue (event-driven cells).
        while updates < max_drain
            invariant
                self.wf(),
                self.tick == tick0,
                self.config == config0,
                pending0.subset_of(self.pending_chunks()),
                max_drain <= max_updates,
                max_drain == drain_budget(config0.max_dirty_drain_per_tick, config0.max_cell_updates_per_tick),
                max_updates == config0.max_cell_updates_per_tick,
                sim_model(*self) == d.m,
                d.count == updates,
                0 <= k <= d.count,
                k <= max_drain,
                drain_run::<H>(d, max_drain as int, max_updates as int, (max_drain - k) as nat) == target,
                drain_hooks::<H>(d, *hooks, max_drain as int, max_updates as int, (max_drain - k) as nat) == target_hooks,
            ensures
                self.wf(),
                self.tick == tick0,
                self.config == config0,
                pending0.subset_of(self.pending_chunks()),
                sim_model(*self) == d.m,
                d == target,
                *hooks == target_hooks,
            decreases max_updates - updates,
        {
            let next = self.dirty.pop_front();
            let pos = match next {
                Some(p) => p,
                None => {
                    break;
                },
            };
            if updates >= max_updates {
                break;
            }
            proof {
                assert(sim_model(*self) =~= popped(d.m));
            }
            updates = self.process_drained(hooks, pos, updates, max_updates);
            proof {
                assert((max_drain - k) as nat - 1 == (max_drain - (k + 1)) as nat);
                d = drain_step::<H>(d, max_updates as int);
                k = k + 1;
            }
        }
        // 2. Phase-gated periodic work.
        let tick = self.tick;
        let ghost drained_model = sim_model(*self);
        let ghost drained_hooks = *hooks;
        let mut phase_id: u8 = 0;
        while phase_id < PHASE_COUNT
            invariant
                self.wf(),
                self.tick == tick0,
                tick == tick0,
                self.config == config0,
                pending0.subset_of(self.pending_chunks()),
                phase_id <= PHASE_COUNT,
                sim_model(*self) == phases_run::<H>(drained_model, tick, phase_id as nat),
                *hooks == phases_hooks::<H>(drained_model, drained_hooks, tick, phase_id as nat),
            decreases PHASE_COUNT - phase_id,
        {
            hooks.on_phase_tick(self, tick, phase_id);
            phase_id = phase_id + 1;
        }
        self.tick = self.tick + 1;
    }

    /// Enqueue the non-empty face neighbors of a processed cell that are neither
    /// queued nor already drained this tick, at most `budget` of them. Returns
    /// how many were enqueued.
    fn propagate_dirty_stub(&mut self, pos: WorldPos, budget: usize) -> (r: usize)
        requires
            old(self).wf(),
            pos.spec_in_bounds(),
        ensures
            final(self).wf(),
            final(self).tick == old(self).tick,
            final(self).config == old(self).config,
            final(self).total_cell_updates == old(self).total_cell_updates,
            ({
                let t = stub_targets(cells_of(old(self).world), old(self).queue(), old(self).dirty.drained(), pos, budget as int);
                &&& r == t.len()
                &&& r <= budget
                &&& final(self).queue() == old(self).queue() + t
                &&& final(self).dirty.drained() == old(self).dirty.drained()
                &&& final(self).pending_chunks() == old(self).pending_chunks().union(chunks_of(t.to_set()))
                &&& forall|q: WorldPos| #[trigger] final(self).world.cell(q) == with_marks(cells_of(old(self).world), t.to_set())(q)
            }),
    {
        let ghost cells0 = cells_of(self.world);
        let ghost queue0 = self.queue();
        let ghost drained0 = self.dirty.drained();
        let ghost pending0 = self.pending_chunks();
        let ghost elig = stub_eligible(cells0, queue0, drained0);
        let mut propagated: usize = 0;
        let neighbors = pos.neighbors_6();
        proof {
            lemma_neighbors_6_are_face_neighbors(pos, pos);
        }
        let ghost added: Seq<WorldPos> = Seq::empty();
        let mut i: usize = 0;
        while i < neighbors.len()
            invariant
                self.wf(),
                i <= neighbors@.len(),
                neighbors@ == spec_neighbors_6(pos),
                neighbors@.no_duplicates(),
                forall|j: int| 0 <= j < neighbors@.len() ==> (#[trigger] neighbors@[j]).spec_in_bounds(),
                elig == stub_eligible(cells0, queue0, drained0),
                added == neighbors@.take(i as int).filter(elig),
                propagated == added.len(),
                propagated <= budget,
                self.tick == old(self).tick,
                self.config == old(self).config,
                self.total_cell_updates == old(self).total_cell_updates,
                self.queue() == queue0 + added,
                self.dirty.drained() == drained0,
                self.pending_chunks() == pending0.union(chunks_of(added.to_set())),
                forall|q: WorldPos| #[trigger] self.world.cell(q) == with_marks(cells0, added.to_set())(q),
            ensures
                self.wf(),
                i <= neighbors@.len(),
                added == neighbors@.take(i as int).filter(elig),
                propagated == added.len(),
                propagated <= budget,
                i < neighbors@.len() ==> propagated == budget,
                self.tick == old(self).tick,
                self.config == old(self).config,
                self.total_cell_updates == old(self).total_cell_updates,
                self.queue() == queue0 + added,
                self.dirty.drained() == drained0,
                self.pending_chunks() == pending0.union(chunks_of(added.to_set())),
                forall|q: WorldPos| #[trigger] self.world.cell(q) == with_marks(cells0, added.to_set())(q),
            decreases neighbors@.len() - i,
        {
            if propagated >= budget {
                break;
            }
            let neighbor = neighbors[i];
            proof {
                assert(neighbors@.take(i as int + 1) =~= neighbors@.take(i as int).push(neighbor));
                neighbors@.take(i as int).lemma_filter_push(neighbor, elig);
                assert(!added.contains(neighbor)) by {
                    if added.contains(neighbor) {
                        neighbors@.take(i as int).lemma_filter_contains_rev(elig, neighbor);
                        let j = choose|j: int| 0 <= j < i && neighbors@.take(i as int)[j] == neighbor;
                        assert(neighbors@[j] == neighbors@[i as int]);
                    }
                }
                assert(self.world.cell(neighbor) == cells0(neighbor));
            }
            i = i + 1;
            if !self.world.get(neighbor).is_empty() && !self.dirty.is_queued(neighbor) && !self.dirty.was_drained(neighbor) {
                let ghost before = *self;
                proof {
                    lemma_queue_contains_concat(queue0, added, neighbor);
                    assert(elig(neighbor));
                }
                self.mark_dirty(neighbor);
                propagated = propagated + 1;
                proof {
                    let old_added = added;
                    added = added.push(neighbor);
                    assert(self.queue() =~= queue0 + added);
                    lemma_to_set_push(old_added, neighbor);
                    assert(self.pending_chunks() =~= pending0.union(chunks_of(added.to_set()))) by {
                        assert forall|c: ChunkCoord| #[trigger] self.pending_chunks().contains(c) <==> pending0.union(chunks_of(added.to_set())).contains(c) by {
                            if chunks_of(added.to_set()).contains(c) && !chunks_of(old_added.to_set()).contains(c) {
                                let p = choose|p: WorldPos| #[trigger] added.to_set().contains(p) && p.spec_chunk_coord() == c;
                                assert(p == neighbor);
                            }
                            if c == neighbor.spec_chunk_coord() {
                                assert(added.to_set().contains(neighbor));
                            }
                            if chunks_of(old_added.to_set()).contains(c) {
                                let p = choose|p: WorldPos| #[trigger] old_added.to_set().contains(p) && p.spec_chunk_coord() == c;
                                assert(added.to_set().contains(p));
                            }
                        }
                    }
                    assert forall|q: WorldPos| #[trigger] self.world.cell(q) == with_marks(cells0, added.to_set())(q) by {
                        assert(before.world.cell(q) == with_marks(cells0, old_added.to_set())(q));
                    }
                }
            } else {
                proof {
                    assert(!elig(neighbor)) by {
                        lemma_queue_contains_concat(queue0, added, neighbor);
                    }
                }
            }
        }
        proof {
            let full = spec_neighbors_6(pos).filter(elig);
            let ii = i as int;
            assert(spec_neighbors_6(pos) =~= neighbors@.take(ii) + neighbors@.skip(ii));
            Seq::filter_distributes_over_add(neighbors@.take(ii), neighbors@.skip(ii), elig);
            if i < neighbors@.len() {
                assert(full.take(budget as int) =~= added);
            } else {
                assert(neighbors@.take(ii) =~= neighbors@);
                neighbors@.lemma_filter_len(elig);
            }
        }
        propagated
    }
}

/// Stepping is deterministic: simulations with equal models, tick numbers
/// and budgets that each take `n` ticks with the same kind of hooks (as
/// `step_with_hooks` does) end with equal models, cells, queues, update
/// counts and tick numbers, and return the same list of dirty chunks.
pub proof fn lemma_step_deterministic<H: SimHooks>(
    a0: Simulation,
    a1: Simulation,
    ra: Seq<ChunkCoord>,
    b0: Simulation,
    b1: Simulation,
    rb: Seq<ChunkCoord>,
    n: nat,
)
    requires
        sim_model(a0) == sim_model(b0),
        a0.tick == b0.tick,
        a0.config == b0.config,
        a1.tick == a0.tick + n,
        b1.tick == b0.tick + n,
        strictly_sorted(ra),
        strictly_sorted(rb),
        ({
            let run = run_model::<H>(sim_model(a0), a0.tick as int, n, a0.config.max_dirty_drain_per_tick, a0.config.max_cell_updates_per_tick);
            &&& sim_model(a1) == run.0
            &&& forall|c: ChunkCoord| #[trigger] ra.contains(c) <==> run.1.contains(c)
        }),
        ({
            let run = run_model::<H>(sim_model(b0), b0.tick as int, n, b0.config.max_dirty_drain_per_tick, b0.config.max_cell_updates_per_tick);
            &&& sim_model(b1) == run.0
            &&& forall|c: ChunkCoord| #[trigger] rb.contains(c) <==> run.1.contains(c)
        }),
    ensures
        sim_model(a1) == sim_model(b1),
        forall|q: WorldPos| #[trigger] a1.world.cell(q) == b1.world.cell(q),
        a1.queue() == b1.queue(),
        a1.total_cell_updates == b1.total_cell_updates,
        a1.tick == b1.tick,
        ra == rb,
{
    assert forall|q: WorldPos| #[trigger] a1.world.cell(q) == b1.world.cell(q) by {
        assert((sim_model(a1).cells)(q) == (sim_model(b1).cells)(q));
    }
    lemma_sorted_same_members(ra, rb);
}

/// Two strictly sorted lists of chunks with the same members are equal.
pub proof fn lemma_sorted_same_members(a: Seq<ChunkCoord>, b: Seq<ChunkCoord>)
    requires
        strictly_sorted(a),
        strictly_sorted(b),
        forall|c: ChunkCoord| #[trigger] a.contains(c) <==> b.contains(c),
    ensures
        a == b,
    decreases a.len(),
{
    if a.len() == 0 {
        if b.len() > 0 {
            assert(b.contains(b[0]));
            assert(a.contains(b[0]));
        }
        assert(a =~= b);
    } else {
        assert(a.contains(a[0]));
        assert(b.len() > 0);
        assert(b.contains(b[0]));
        assert(a.contains(b[0]));
        assert(b.contains(a[0]));
        let j = choose|j: int| 0 <= j < b.len() && b[j] == a[0];
        let i = choose|i: int| 0 <= i < a.len() && a[i] == b[0];
        if j > 0 {
            assert(coord_lt(b[0], b[j]));
            if i > 0 {
                assert(coord_lt(a[0], a[i]));
            }
            assert(false);
        }
        let ta = a.subrange(1, a.len() as int);
        let tb = b.subrange(1, b.len() as int);
        assert forall|x: int, y: int| 0 <= x < y < ta.len() implies coord_lt(#[trigger] ta[x], #[trigger] ta[y]) by {
            assert(ta[x] == a[x + 1] && ta[y] == a[y + 1]);
        }
        assert forall|x: int, y: int| 0 <= x < y < tb.len() implies coord_lt(#[trigger] tb[x], #[trigger] tb[y]) by {
            assert(tb[x] == b[x + 1] && tb[y] == b[y + 1]);
        }
        assert forall|c: ChunkCoord| #[trigger] ta.contains(c) <==> tb.contains(c) by {
            if ta.contains(c) {
                let k = choose|k: int| 0 <= k < ta.len() && ta[k] == c;
                assert(a[k + 1] == c);
                assert(coord_lt(a[0], a[k + 1]));
                assert(a.contains(c));
                assert(b.contains(c));
                let l = choose|l: int| 0 <= l < b.len() && b[l] == c;
                assert(l != 0);
                assert(tb[l - 1] == c);
            }
            if tb.contains(c) {
                let k = choose|k: int| 0 <= k < tb.len() && tb[k] == c;
                assert(b[k + 1] == c);
                assert(coord_lt(b[0], b[k + 1]));
                assert(b.contains(c));
                assert(a.contains(c));
                let l = choose|l: int| 0 <= l < a.len() && a[l] == c;
                assert(l != 0);
                assert(ta[l - 1] == c);
            }
        }
        lemma_sorted_same_members(ta, tb);
        assert forall|k: int| 0 <= k < a.len() implies a[k] == b[k] by {
            if k > 0 {
                assert(a[k] == ta[k - 1] && b[k] == tb[k - 1]);
            }
        }
        assert(a =~= b);
    }
}

/// The dirty queue of a well-formed simulation holds distinct in-world
/// positions: a cell is never queued twice.
pub proof fn lemma_queue_distinct(sim: Simulation)
    requires
        sim.wf(),
    ensures
        sim.queue().no_duplicates(),
        forall|i: int| 0 <= i < sim.queue().len() ==> (#[trigger] sim.queue()[i]).spec_in_bounds(),
{
}

/// Without cell behaviors no update is ever counted.
pub proof fn lemma_null_run_keeps_updates(m: SimModel, tick: int, n: nat, max_drain: usize, max_updates: usize)
    ensures
        run_model::<NullHooks>(m, tick, n, max_drain, max_updates).0.updates == m.updates,
    decreases n,
{
    if n > 0 {
        let budget = drain_budget(max_drain, max_updates);
        let d0 = DrainModel { m: SimModel { drained: Set::empty(), ..m }, count: 0 };
        lemma_null_drain_keeps_updates(d0, budget, max_updates as int, budget as nat);
        let m1 = tick_model::<NullHooks>(m, tick as u64, max_drain, max_updates);
        lemma_null_phases_identity(drain_run::<NullHooks>(d0, budget, max_updates as int, budget as nat).m, tick as u64, PHASE_COUNT as nat);
        lemma_null_run_keeps_updates(SimModel { pending: Set::empty(), ..m1 }, tick + 1, (n - 1) as nat, max_drain, max_updates);
    }
}

proof fn lemma_null_drain_keeps_updates(d: DrainModel, max_drain: int, max_updates: int, fuel: nat)
    ensures
        drain_run::<NullHooks>(d, max_drain, max_updates, fuel).m.updates == d.m.updates,
    decreases fuel,
{
    if !(fuel == 0 || d.count >= max_drain || d.m.queue.len() == 0) {
        lemma_null_drain_keeps_updates(drain_step::<NullHooks>(d, max_updates), max_drain, max_updates, (fuel - 1) as nat);
    }
}

proof fn lemma_null_phases_identity(m: SimModel, tick: u64, n: nat)
    ensures
        phases_run::<NullHooks>(m, tick, n) == m,
    decreases n,
{
    if n > 0 {
        lemma_null_phases_identity(m, tick, (n - 1) as nat);
    }
}

/// Membership in a concatenated queue.
proof fn lemma_queue_contains_concat(a: Seq<WorldPos>, b: Seq<WorldPos>, p: WorldPos)
    ensures
        (a + b).contains(p) <==> (a.contains(p) || b.contains(p)),
{
    if (a + b).contains(p) {
        let k = choose|k: int| 0 <= k < (a + b).len() && (a + b)[k] == p;
        if k < a.len() {
            assert(a[k] == p);
        } else {
            assert(b[k - a.len()] == p);
        }
    }
    if a.contains(p) {
        let k = choose|k: int| 0 <= k < a.len() && a[k] == p;
        assert((a + b)[k] == p);
    }
    if b.contains(p) {
        let k = choose|k: int| 0 <= k < b.len() && b[k] == p;
        assert((a + b)[a.len() + k] == p);
    }
}

} // verus!
