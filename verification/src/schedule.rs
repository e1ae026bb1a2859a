//! A model of the tick scheduler: what draining the dirty queue and running
//! the phase buckets do to the cells, the queue, the drained positions, the
//! pending chunks and the update count, given what the cell hooks do.
use vstd::prelude::*;

use crate::cell::Cell;
use crate::constants::PHASE_COUNT;
use crate::coord::{spec_neighbors_6, ChunkCoord, WorldPos};
use crate::sim::SimHooks;
use crate::world::{spec_with_dirty, spec_without_dirty, stored_value, World};

verus! {

/// The cells of `w` as a function of position.
pub open spec fn cells_of(w: World) -> spec_fn(WorldPos) -> Cell {
    |q: WorldPos| w.cell(q)
}

/// What the scheduler works on: the cells, the dirty queue (front first),
/// the positions drained in the current tick, the chunks pending report, and
/// the count of cell updates.
#[verifier::ext_equal]
pub struct SimModel {
    pub cells: spec_fn(WorldPos) -> Cell,
    pub queue: Seq<WorldPos>,
    pub drained: Set<WorldPos>,
    pub pending: Set<ChunkCoord>,
    pub updates: u64,
}

/// A neighbor that propagation may enqueue: non-empty, not queued, and not
/// drained in the current tick.
pub open spec fn stub_eligible(
    cells: spec_fn(WorldPos) -> Cell,
    queue: Seq<WorldPos>,
    drained: Set<WorldPos>,
) -> spec_fn(WorldPos) -> bool {
    |n: WorldPos| !cells(n).spec_is_empty() && !queue.contains(n) && !drained.contains(n)
}

/// The face neighbors of `p` that propagation enqueues: the eligible ones in
/// neighbor order, at most `budget` of them.
pub open spec fn stub_targets(
    cells: spec_fn(WorldPos) -> Cell,
    queue: Seq<WorldPos>,
    drained: Set<WorldPos>,
    p: WorldPos,
    budget: int,
) -> Seq<WorldPos> {
    let c = spec_neighbors_6(p).filter(stub_eligible(cells, queue, drained));
    if c.len() <= budget {
        c
    } else {
        c.take(budget)
    }
}

/// The chunks holding the positions of `s`.
pub open spec fn chunks_of(s: Set<WorldPos>) -> Set<ChunkCoord> {
    Set::new(|c: ChunkCoord| exists|p: WorldPos| #[trigger] s.contains(p) && p.spec_chunk_coord() == c)
}

/// `cells` with the dirty bit set on every position of `marked`.
pub open spec fn with_marks(cells: spec_fn(WorldPos) -> Cell, marked: Set<WorldPos>) -> spec_fn(WorldPos) -> Cell {
    |q: WorldPos| if marked.contains(q) { spec_with_dirty(cells(q)) } else { cells(q) }
}

/// The front of the queue taken off and recorded as drained.
pub open spec fn popped(m: SimModel) -> SimModel {
    SimModel { queue: m.queue.subrange(1, m.queue.len() as int), drained: m.drained.insert(m.queue[0]), ..m }
}

/// The dirty bit of the cell at `pos` cleared (when `pos` lies in the world).
pub open spec fn cleared(m: SimModel, pos: WorldPos) -> SimModel {
    SimModel {
        cells: |q: WorldPos|
            if q == pos && pos.spec_in_bounds() {
                stored_value(spec_without_dirty((m.cells)(pos)))
            } else {
                (m.cells)(q)
            },
        ..m
    }
}

/// Chunk `c` added to the pending chunks.
pub open spec fn chunk_marked(m: SimModel, c: ChunkCoord) -> SimModel {
    SimModel { pending: m.pending.insert(c), ..m }
}

/// The eligible neighbors of `pos` (at most `budget`) enqueued, with their
/// dirty bits set and their chunks pending.
pub open spec fn propagated(m: SimModel, pos: WorldPos, budget: int) -> SimModel {
    let t = stub_targets(m.cells, m.queue, m.drained, pos, budget);
    SimModel {
        cells: with_marks(m.cells, t.to_set()),
        queue: m.queue + t,
        pending: m.pending.union(chunks_of(t.to_set())),
        ..m
    }
}

/// The drain loop of one tick: the model and the updates counted so far.
pub struct DrainModel {
    pub m: SimModel,
    pub count: int,
}

/// Processing `pos`, just taken off the queue, with `count` updates counted:
/// its dirty bit is cleared, the hook runs, its chunk becomes pending, and
/// (while the update budget lasts) its eligible neighbors are enqueued.
pub open spec fn process_model<H: SimHooks>(m: SimModel, pos: WorldPos, count: int, max_updates: int) -> DrainModel {
    let m1 = chunk_marked(H::dirty_model(cleared(m, pos), pos), pos.spec_chunk_coord());
    let u = count + 1;
    if u < max_updates {
        DrainModel {
            m: propagated(m1, pos, max_updates - u),
            count: u + stub_targets(m1.cells, m1.queue, m1.drained, pos, max_updates - u).len(),
        }
    } else {
        DrainModel { m: m1, count: u }
    }
}

/// Drain the front of the queue.
pub open spec fn drain_step<H: SimHooks>(d: DrainModel, max_updates: int) -> DrainModel {
    process_model::<H>(popped(d.m), d.m.queue[0], d.count, max_updates)
}

/// Drain until the queue empties or `max_drain` updates are counted (at
/// most `fuel` steps).
pub open spec fn drain_run<H: SimHooks>(d: DrainModel, max_drain: int, max_updates: int, fuel: nat) -> DrainModel
    decreases fuel,
{
    if fuel == 0 || d.count >= max_drain || d.m.queue.len() == 0 {
        d
    } else {
        drain_run::<H>(drain_step::<H>(d, max_updates), max_drain, max_updates, (fuel - 1) as nat)
    }
}

/// The drain budget: the configured drain limit, capped by the update limit.
pub open spec fn drain_budget(max_drain: usize, max_updates: usize) -> int {
    if max_drain < max_updates {
        max_drain as int
    } else {
        max_updates as int
    }
}

/// The phase buckets `0..n` run in order on `tick`.
pub open spec fn phases_run<H: SimHooks>(m: SimModel, tick: u64, n: nat) -> SimModel
    decreases n,
{
    if n == 0 {
        m
    } else {
        H::phase_model(phases_run::<H>(m, tick, (n - 1) as nat), tick, (n - 1) as u8)
    }
}

/// One tick numbered `tick`: forget the last tick's drained positions, drain
/// the queue within the budgets, then run the phase buckets.
pub open spec fn tick_model<H: SimHooks>(m: SimModel, tick: u64, max_drain: usize, max_updates: usize) -> SimModel {
    let budget = drain_budget(max_drain, max_updates);
    let d = drain_run::<H>(
        DrainModel { m: SimModel { drained: Set::empty(), ..m }, count: 0 },
        budget,
        max_updates as int,
        budget as nat,
    );
    phases_run::<H>(d.m, tick, PHASE_COUNT as nat)
}

/// `n` ticks from tick number `tick`, each followed by its report: the final
/// model and every chunk reported (the chunks pending after each tick, which
/// are then cleared).
pub open spec fn run_model<H: SimHooks>(m: SimModel, tick: int, n: nat, max_drain: usize, max_updates: usize) -> (SimModel, Set<ChunkCoord>)
    decreases n,
{
    if n == 0 {
        (m, Set::empty())
    } else {
        let m1 = tick_model::<H>(m, tick as u64, max_drain, max_updates);
        let rest = run_model::<H>(SimModel { pending: Set::empty(), ..m1 }, tick + 1, (n - 1) as nat, max_drain, max_updates);
        (rest.0, m1.pending.union(rest.1))
    }
}

/// The hooks after the drain that `drain_run` describes: each processed
/// cell moves them on as `after_dirty` says.
pub open spec fn drain_hooks<H: SimHooks>(d: DrainModel, h: H, max_drain: int, max_updates: int, fuel: nat) -> H
    decreases fuel,
{
    if fuel == 0 || d.count >= max_drain || d.m.queue.len() == 0 {
        h
    } else {
        let p = d.m.queue[0];
        drain_hooks::<H>(
            drain_step::<H>(d, max_updates),
            h.after_dirty(cleared(popped(d.m), p), p),
            max_drain,
            max_updates,
            (fuel - 1) as nat,
        )
    }
}

/// The hooks after the phase buckets `0..n` ran on `tick` from model `m`.
pub open spec fn phases_hooks<H: SimHooks>(m: SimModel, h: H, tick: u64, n: nat) -> H
    decreases n,
{
    if n == 0 {
        h
    } else {
        phases_hooks::<H>(m, h, tick, (n - 1) as nat).after_phase(phases_run::<H>(m, tick, (n - 1) as nat), tick, (n - 1) as u8)
    }
}

/// The hooks after the tick that `tick_model` describes.
pub open spec fn tick_hooks<H: SimHooks>(m: SimModel, h: H, tick: u64, max_drain: usize, max_updates: usize) -> H {
    let budget = drain_budget(max_drain, max_updates);
    let d0 = DrainModel { m: SimModel { drained: Set::empty(), ..m }, count: 0 };
    let d = drain_run::<H>(d0, budget, max_updates as int, budget as nat);
    phases_hooks::<H>(d.m, drain_hooks::<H>(d0, h, budget, max_updates as int, budget as nat), tick, PHASE_COUNT as nat)
}

/// The hooks after the ticks that `run_model` describes.
pub open spec fn run_hooks<H: SimHooks>(m: SimModel, h: H, tick: int, n: nat, max_drain: usize, max_updates: usize) -> H
    decreases n,
{
    if n == 0 {
        h
    } else {
        let m1 = tick_model::<H>(m, tick as u64, max_drain, max_updates);
        run_hooks::<H>(
            SimModel { pending: Set::empty(), ..m1 },
            tick_hooks::<H>(m, h, tick as u64, max_drain, max_updates),
            tick + 1,
            (n - 1) as nat,
            max_drain,
            max_updates,
        )
    }
}

/// Running `n` ticks and then `m` more ends where running `n + m` ticks
/// ends, and reports the same chunks altogether.
pub proof fn lemma_run_split<H: SimHooks>(s: SimModel, tick: int, n: nat, m: nat, max_drain: usize, max_updates: usize)
    ensures
        run_model::<H>(run_model::<H>(s, tick, n, max_drain, max_updates).0, tick + n, m, max_drain, max_updates).0
            == run_model::<H>(s, tick, n + m, max_drain, max_updates).0,
        run_model::<H>(s, tick, n, max_drain, max_updates).1.union(
            run_model::<H>(run_model::<H>(s, tick, n, max_drain, max_updates).0, tick + n, m, max_drain, max_updates).1,
        ) == run_model::<H>(s, tick, n + m, max_drain, max_updates).1,
    decreases n,
{
    if n == 0 {
        assert(Set::<ChunkCoord>::empty().union(run_model::<H>(s, tick, m, max_drain, max_updates).1)
            =~= run_model::<H>(s, tick, m, max_drain, max_updates).1);
    } else {
        let m1 = tick_model::<H>(s, tick as u64, max_drain, max_updates);
        let s1 = SimModel { pending: Set::empty(), ..m1 };
        lemma_run_split::<H>(s1, tick + 1, (n - 1) as nat, m, max_drain, max_updates);
        assert((n + m - 1) as nat == (n - 1) as nat + m);
        assert(tick + 1 + (n - 1) == tick + n);
        let a = run_model::<H>(s1, tick + 1, (n - 1) as nat, max_drain, max_updates).1;
        let b = run_model::<H>(run_model::<H>(s1, tick + 1, (n - 1) as nat, max_drain, max_updates).0, tick + n, m, max_drain, max_updates).1;
        assert(m1.pending.union(a).union(b) =~= m1.pending.union(a.union(b)));
    }
}

/// Chunks of a union, and of a set with one more position.
pub proof fn lemma_chunks_of(a: Set<WorldPos>, b: Set<WorldPos>, p: WorldPos)
    ensures
        chunks_of(a.union(b)) == chunks_of(a).union(chunks_of(b)),
        chunks_of(a.insert(p)) == chunks_of(a).insert(p.spec_chunk_coord()),
{
    assert forall|c: ChunkCoord| #[trigger] chunks_of(a.union(b)).contains(c) <==> chunks_of(a).union(chunks_of(b)).contains(c) by {
        if chunks_of(a.union(b)).contains(c) {
            let q = choose|q: WorldPos| #[trigger] a.union(b).contains(q) && q.spec_chunk_coord() == c;
            if a.contains(q) {
                assert(chunks_of(a).contains(c));
            } else {
                assert(chunks_of(b).contains(c));
            }
        }
        if chunks_of(a).contains(c) {
            let q = choose|q: WorldPos| #[trigger] a.contains(q) && q.spec_chunk_coord() == c;
            assert(a.union(b).contains(q));
        }
        if chunks_of(b).contains(c) {
            let q = choose|q: WorldPos| #[trigger] b.contains(q) && q.spec_chunk_coord() == c;
            assert(a.union(b).contains(q));
        }
    }
    assert(chunks_of(a.union(b)) =~= chunks_of(a).union(chunks_of(b)));
    assert forall|c: ChunkCoord| #[trigger] chunks_of(a.insert(p)).contains(c) <==> chunks_of(a).insert(p.spec_chunk_coord()).contains(c) by {
        if chunks_of(a.insert(p)).contains(c) {
            let q = choose|q: WorldPos| #[trigger] a.insert(p).contains(q) && q.spec_chunk_coord() == c;
            if q != p {
                assert(chunks_of(a).contains(c));
            }
        }
        if chunks_of(a).contains(c) {
            let q = choose|q: WorldPos| #[trigger] a.contains(q) && q.spec_chunk_coord() == c;
            assert(a.insert(p).contains(q));
        }
        if c == p.spec_chunk_coord() {
            assert(a.insert(p).contains(p));
        }
    }
    assert(chunks_of(a.insert(p)) =~= chunks_of(a).insert(p.spec_chunk_coord()));
}

/// The set of a sequence after a push.
pub proof fn lemma_to_set_push(s: Seq<WorldPos>, x: WorldPos)
    ensures
        s.push(x).to_set() == s.to_set().insert(x),
{
    assert forall|y: WorldPos| #[trigger] s.push(x).to_set().contains(y) <==> s.to_set().insert(x).contains(y) by {
        if s.push(x).contains(y) {
            let k = choose|k: int| 0 <= k < s.push(x).len() && s.push(x)[k] == y;
            if k < s.len() {
                assert(s[k] == y);
            }
        }
        if s.contains(y) {
            let k = choose|k: int| 0 <= k < s.len() && s[k] == y;
            assert(s.push(x)[k] == y);
        }
        if y == x {
            assert(s.push(x)[s.len() as int] == x);
        }
    }
    assert(s.push(x).to_set() =~= s.to_set().insert(x));
}

} // verus!
