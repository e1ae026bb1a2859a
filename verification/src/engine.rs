//! Cell-type behaviors wired into the tick scheduler.
use vstd::prelude::*;

use crate::cell::Cell;
use crate::coord::{lemma_neighbors_6_are_face_neighbors, offset_neighbor, spec_neighbors_6, ChunkCoord, WorldPos};
use crate::constants::PHASE_COUNT;
use crate::schedule::{
    cells_of, chunks_of, drain_budget, drain_run, lemma_chunks_of, lemma_to_set_push, phases_run, run_model, tick_model,
    with_marks, DrainModel, SimModel,
};
use crate::sim::{sim_model, SimHooks, Simulation};
use crate::types::{
    generator_period, generator_should_fire, spec_should_fire, lemma_factory_round_trip, spec_make_transformer, spec_generator_period, aggregator_mode, spec_aggregator_mode,
    spec_transformer_direction, transformer_direction, CellTypeRegistry, Direction, ReduceMode, TYPE_AGGREGATOR,
    TYPE_GENERATOR, TYPE_TRANSFORMER,
};
use crate::world::{lemma_pos_of_rank, pos_of_rank, pos_rank, spec_with_dirty, stored_value, World};

verus! {

/// Whether cells of type `t` are re-evaluated when a neighbor changes.
pub open spec fn listens(t: u8) -> bool {
    CellTypeRegistry::spec_listens_to_neighbors(t)
}

/// The positions of `s` whose cells listen to their neighbors, in order.
pub open spec fn listeners_of(cells: spec_fn(WorldPos) -> Cell, s: Seq<WorldPos>) -> Seq<WorldPos>
    decreases s.len(),
{
    if s.len() == 0 {
        Seq::empty()
    } else {
        let rest = listeners_of(cells, s.drop_last());
        if listens(cells(s.last()).type_id) {
            rest.push(s.last())
        } else {
            rest
        }
    }
}

/// Queue `q` after enqueuing each position of `s` in order (a position
/// already queued is not added again).
pub open spec fn enqueue_all(q: Seq<WorldPos>, s: Seq<WorldPos>) -> Seq<WorldPos>
    decreases s.len(),
{
    if s.len() == 0 {
        q
    } else {
        let q2 = enqueue_all(q, s.drop_last());
        if q2.contains(s.last()) {
            q2
        } else {
            q2.push(s.last())
        }
    }
}

/// The listeners around `pos` that a state change at `pos` marks dirty.
pub open spec fn listeners_around(cells: spec_fn(WorldPos) -> Cell, pos: WorldPos) -> Seq<WorldPos> {
    listeners_of(cells, spec_neighbors_6(pos))
}

/// The model after marking each position of `marks` dirty: those cells gain
/// the dirty bit, join the queue (once) and have their chunks pending.
pub open spec fn marked_model(m: SimModel, marks: Seq<WorldPos>) -> SimModel {
    SimModel {
        cells: with_marks(m.cells, marks.to_set()),
        queue: enqueue_all(m.queue, marks),
        pending: m.pending.union(chunks_of(marks.to_set())),
        ..m
    }
}

/// Whether writing `cell` at `pos` changes the stored state or type there.
pub open spec fn write_changes(cells: spec_fn(WorldPos) -> Cell, pos: WorldPos, cell: Cell) -> bool {
    &&& pos.spec_in_bounds()
    &&& (cells(pos).state != stored_value(cell).state || cells(pos).type_id != stored_value(cell).type_id)
}

/// Whether a write of `cell` at `pos` counts as an update: it differs from
/// the cell there and changes the stored state or type.
pub open spec fn write_counts(cells: spec_fn(WorldPos) -> Cell, pos: WorldPos, cell: Cell) -> bool {
    cell != cells(pos) && write_changes(cells, pos, cell)
}

/// The model after `write_cell(pos, cell)`: nothing happens when the cell is
/// already there; otherwise it is stored (when `pos` is in the world), its
/// chunk becomes pending, and, when its state or type changed, the
/// listening neighbors are marked dirty.
pub open spec fn write_model(m: SimModel, pos: WorldPos, cell: Cell) -> SimModel {
    if cell == (m.cells)(pos) {
        m
    } else {
        let stored = SimModel {
            cells: |q: WorldPos| if q == pos && pos.spec_in_bounds() { stored_value(cell) } else { (m.cells)(q) },
            pending: m.pending.insert(pos.spec_chunk_coord()),
            ..m
        };
        if write_changes(m.cells, pos, cell) {
            marked_model(stored, listeners_around(m.cells, pos))
        } else {
            stored
        }
    }
}

/// `v + 1`, saturating.
pub open spec fn sat_inc(v: u64) -> u64 {
    if v < u64::MAX {
        (v + 1) as u64
    } else {
        v
    }
}

/// `v + 1`, saturating at `u16::MAX`.
pub open spec fn sat_inc16(v: u16) -> u16 {
    if v < u16::MAX {
        (v + 1) as u16
    } else {
        v
    }
}

/// The model after a write of `cell` at `pos` that is counted when it
/// changes the cell's state or type.
pub open spec fn written(m: SimModel, pos: WorldPos, cell: Cell) -> SimModel {
    SimModel {
        updates: if write_counts(m.cells, pos, cell) { sat_inc(m.updates) } else { m.updates },
        ..write_model(m, pos, cell)
    }
}

/// The face neighbor of `pos` in direction `d` (coordinates saturate at the
/// `u16` range), if it lies in the world.
pub open spec fn spec_neighbor_in_direction(pos: WorldPos, d: Direction) -> Option<WorldPos> {
    let up_x = if pos.x < u16::MAX { (pos.x + 1) as u16 } else { pos.x };
    let up_y = if pos.y < u16::MAX { (pos.y + 1) as u16 } else { pos.y };
    let up_z = if pos.z < u16::MAX { (pos.z + 1) as u16 } else { pos.z };
    let down_x = if pos.x > 0 { (pos.x - 1) as u16 } else { 0u16 };
    let down_y = if pos.y > 0 { (pos.y - 1) as u16 } else { 0u16 };
    let down_z = if pos.z > 0 { (pos.z - 1) as u16 } else { 0u16 };
    let candidate = match d {
        Direction::PosX => WorldPos { x: up_x, ..pos },
        Direction::NegX => WorldPos { x: down_x, ..pos },
        Direction::PosY => WorldPos { y: up_y, ..pos },
        Direction::NegY => WorldPos { y: down_y, ..pos },
        Direction::PosZ => WorldPos { z: up_z, ..pos },
        Direction::NegZ => WorldPos { z: down_z, ..pos },
    };
    if candidate.spec_in_bounds() {
        Some(candidate)
    } else {
        None
    }
}

/// The state a transformer at `pos` copies: its input neighbor's state, or 0
/// when the input lies outside the world.
pub open spec fn transformer_input(cells: spec_fn(WorldPos) -> Cell, pos: WorldPos, cell: Cell) -> u16 {
    match spec_neighbor_in_direction(pos, spec_transformer_direction(cell)) {
        Some(n) => cells(n).state,
        None => 0,
    }
}

/// Sum of the states of the cells at `s`.
pub open spec fn state_sum(cells: spec_fn(WorldPos) -> Cell, s: Seq<WorldPos>) -> int
    decreases s.len(),
{
    if s.len() == 0 {
        0
    } else {
        state_sum(cells, s.drop_last()) + cells(s.last()).state
    }
}

/// Largest state of the cells at `s` (0 for none).
pub open spec fn state_max(cells: spec_fn(WorldPos) -> Cell, s: Seq<WorldPos>) -> u16
    decreases s.len(),
{
    if s.len() == 0 {
        0
    } else {
        let m = state_max(cells, s.drop_last());
        let v = cells(s.last()).state;
        if v > m {
            v
        } else {
            m
        }
    }
}

/// The state an aggregator at `pos` reduces its face neighbors to.
pub open spec fn aggregator_target(cells: spec_fn(WorldPos) -> Cell, pos: WorldPos, cell: Cell) -> u16 {
    let nb = spec_neighbors_6(pos);
    match spec_aggregator_mode(cell) {
        ReduceMode::Sum => if state_sum(cells, nb) > u16::MAX { u16::MAX } else { state_sum(cells, nb) as u16 },
        ReduceMode::Max => state_max(cells, nb),
    }
}

/// The model after a cell at `pos` (holding `cell`) settles to state
/// `target`: nothing happens when it already holds it; otherwise the new
/// state is written and counted.
pub open spec fn settle_model(m: SimModel, pos: WorldPos, cell: Cell, target: u16) -> SimModel {
    if cell.state == target {
        m
    } else {
        written(m, pos, Cell { state: target, ..cell })
    }
}

/// What processing the dirty cell at `pos` does: a transformer copies its
/// input neighbor's state, an aggregator reduces its neighbors' states, and
/// any other cell is left alone.
pub open spec fn engine_dirty(m: SimModel, pos: WorldPos) -> SimModel {
    let c = (m.cells)(pos);
    if c.type_id == TYPE_TRANSFORMER {
        settle_model(m, pos, c, transformer_input(m.cells, pos, c))
    } else if c.type_id == TYPE_AGGREGATOR {
        settle_model(m, pos, c, aggregator_target(m.cells, pos, c))
    } else {
        m
    }
}

/// A generator cell after one pulse.
pub open spec fn fired_cell(c: Cell) -> Cell {
    Cell { state: sat_inc16(c.state), ..c }
}

/// `s` lists the in-world generators of phase bucket `phase` in `cells`,
/// each with its cell, in increasing rank.
pub open spec fn gen_list(cells: spec_fn(WorldPos) -> Cell, phase: u8, s: Seq<(WorldPos, Cell)>) -> bool {
    &&& forall|j: int|
        0 <= j < s.len() ==> {
            &&& (#[trigger] s[j]).0.spec_in_bounds()
            &&& s[j].1 == cells(s[j].0)
            &&& s[j].1.type_id == TYPE_GENERATOR
            &&& s[j].0.spec_phase() == phase
        }
    &&& forall|a: int, b: int| 0 <= a < b < s.len() ==> pos_rank((#[trigger] s[a]).0) < pos_rank((#[trigger] s[b]).0)
    &&& forall|p: WorldPos|
        p.spec_in_bounds() && (#[trigger] cells(p)).type_id == TYPE_GENERATOR && p.spec_phase() == phase
            ==> exists|j: int| 0 <= j < s.len() && s[j].0 == p
}

/// The in-world generators of phase bucket `phase` with rank below `r`, in
/// increasing rank.
pub open spec fn gens_upto(cells: spec_fn(WorldPos) -> Cell, phase: u8, r: nat) -> Seq<(WorldPos, Cell)>
    decreases r,
{
    if r == 0 {
        Seq::empty()
    } else {
        let prev = gens_upto(cells, phase, (r - 1) as nat);
        let p = pos_of_rank(r - 1);
        if p.spec_in_bounds() && pos_rank(p) == r - 1 && cells(p).type_id == TYPE_GENERATOR && p.spec_phase() == phase {
            prev.push((p, cells(p)))
        } else {
            prev
        }
    }
}

/// The generators of phase bucket `phase`, in increasing rank.
pub open spec fn phase_gens(cells: spec_fn(WorldPos) -> Cell, phase: u8) -> Seq<(WorldPos, Cell)> {
    gens_upto(cells, phase, 134217728)
}

/// The listed generators pulse in order, each that is due on `tick`.
pub open spec fn fire_all(m: SimModel, gens: Seq<(WorldPos, Cell)>, tick: u64) -> SimModel
    decreases gens.len(),
{
    if gens.len() == 0 {
        m
    } else {
        let prev = fire_all(m, gens.drop_last(), tick);
        let g = gens.last();
        if spec_should_fire(tick as int, g.0.spec_phase(), spec_generator_period(g.1) as int) {
            written(prev, g.0, fired_cell(g.1))
        } else {
            prev
        }
    }
}

/// What phase bucket `phase` does on `tick`: its generators that are due
/// pulse, in increasing rank.
pub open spec fn engine_phase(m: SimModel, tick: u64, phase: u8) -> SimModel {
    fire_all(m, phase_gens(m.cells, phase), tick)
}

/// Listener lists only depend on the types of the listed cells.
pub proof fn lemma_listeners_of_types(c1: spec_fn(WorldPos) -> Cell, c2: spec_fn(WorldPos) -> Cell, s: Seq<WorldPos>)
    requires
        forall|i: int| 0 <= i < s.len() ==> (#[trigger] c1(s[i])).type_id == c2(s[i]).type_id,
    ensures
        listeners_of(c1, s) == listeners_of(c2, s),
    decreases s.len(),
{
    if s.len() > 0 {
        assert(c1(s[s.len() - 1]).type_id == c2(s[s.len() - 1]).type_id);
        lemma_listeners_of_types(c1, c2, s.drop_last());
    }
}

/// Every listed listener comes from the list and listens.
pub proof fn lemma_listeners_of_subset(cells: spec_fn(WorldPos) -> Cell, s: Seq<WorldPos>, q: WorldPos)
    ensures
        listeners_of(cells, s).contains(q) ==> s.contains(q) && listens(cells(q).type_id),
    decreases s.len(),
{
    if s.len() > 0 {
        lemma_listeners_of_subset(cells, s.drop_last(), q);
        let r = listeners_of(cells, s.drop_last());
        if listeners_of(cells, s).contains(q) && r.contains(q) {
            let k = choose|k: int| 0 <= k < s.drop_last().len() && s.drop_last()[k] == q;
            assert(s[k] == q);
        }
        if listeners_of(cells, s).contains(q) && !r.contains(q) {
            if listens(cells(s.last()).type_id) {
                let k = choose|k: int| 0 <= k < r.push(s.last()).len() && r.push(s.last())[k] == q;
                if k < r.len() {
                    assert(r[k] == q);
                }
                assert(s[s.len() - 1] == q);
            }
        }
    }
}

/// A write elsewhere, or the write of another generator cell, leaves the
/// cell at a generator position `pos` as it was, except that a write at
/// `pos` itself stores the written cell when it differs.
proof fn lemma_write_at_generator(m: SimModel, q: WorldPos, cell: Cell, pos: WorldPos)
    requires
        (m.cells)(pos).type_id == TYPE_GENERATOR,
        cell.type_id == TYPE_GENERATOR,
    ensures
        (written(m, q, cell).cells)(pos) == if q == pos && pos.spec_in_bounds() && cell != (m.cells)(pos) {
            cell
        } else {
            (m.cells)(pos)
        },
{
    if cell != (m.cells)(q) && write_changes(m.cells, q, cell) {
        lemma_listeners_of_subset(m.cells, spec_neighbors_6(q), pos);
    }
}

/// After the listed generators pulse, a generator position `pos` listed at
/// most once (with its cell `g`) holds a generator whose state went up by
/// one (saturating) exactly when it is listed and due.
proof fn lemma_fire_all_at(m: SimModel, gens: Seq<(WorldPos, Cell)>, tick: u64, pos: WorldPos)
    requires
        pos.spec_in_bounds(),
        (m.cells)(pos).type_id == TYPE_GENERATOR,
        forall|j: int| 0 <= j < gens.len() ==> (#[trigger] gens[j]).1.type_id == TYPE_GENERATOR,
        forall|j: int| 0 <= j < gens.len() && (#[trigger] gens[j]).0 == pos ==> gens[j].1 == (m.cells)(pos),
        forall|a: int, b: int| 0 <= a < b < gens.len() ==> pos_rank((#[trigger] gens[a]).0) < pos_rank((#[trigger] gens[b]).0),
    ensures
        ({
            let g = (m.cells)(pos);
            let after = (fire_all(m, gens, tick).cells)(pos);
            &&& after.type_id == TYPE_GENERATOR
            &&& after.state == if names(gens, pos) && spec_should_fire(tick as int, pos.spec_phase(), spec_generator_period(g) as int) {
                sat_inc16(g.state)
            } else {
                g.state
            }
        }),
    decreases gens.len(),
{
    if gens.len() > 0 {
        let init = gens.drop_last();
        assert forall|j: int| 0 <= j < init.len() implies (#[trigger] init[j]).1.type_id == TYPE_GENERATOR by {
            assert(init[j] == gens[j]);
        }
        assert forall|j: int| 0 <= j < init.len() && (#[trigger] init[j]).0 == pos implies init[j].1 == (m.cells)(pos) by {
            assert(init[j] == gens[j]);
        }
        assert forall|a: int, b: int| 0 <= a < b < init.len() implies pos_rank((#[trigger] init[a]).0) < pos_rank((#[trigger] init[b]).0) by {
            assert(init[a] == gens[a] && init[b] == gens[b]);
        }
        lemma_fire_all_at(m, init, tick, pos);
        let prev = fire_all(m, init, tick);
        let last = gens.last();
        assert(last == gens[gens.len() - 1]);
        let g = (m.cells)(pos);
        if last.0 == pos {
            assert(!names(init, pos)) by {
                if names(init, pos) {
                    let j = choose|j: int| 0 <= j < init.len() && (#[trigger] init[j]).0 == pos;
                    assert(init[j] == gens[j]);
                    assert(pos_rank(gens[j].0) < pos_rank(gens[gens.len() - 1].0));
                }
            }
            assert(names(gens, pos));
        } else {
            assert(names(gens, pos) == names(init, pos)) by {
                if names(gens, pos) {
                    let j = choose|j: int| 0 <= j < gens.len() && (#[trigger] gens[j]).0 == pos;
                    assert(j < init.len());
                    assert(init[j] == gens[j]);
                }
                if names(init, pos) {
                    let j = choose|j: int| 0 <= j < init.len() && (#[trigger] init[j]).0 == pos;
                    assert(init[j] == gens[j]);
                }
            }
        }
        if spec_should_fire(tick as int, last.0.spec_phase(), spec_generator_period(last.1) as int) {
            lemma_write_at_generator(prev, last.0, fired_cell(last.1), pos);
        }
    }
}

/// One phase bucket pulses a generator exactly when the generator belongs to
/// the bucket and is due on the tick: its state goes up by one (saturating),
/// and it stays a generator.
pub proof fn lemma_generator_pulse(m: SimModel, tick: u64, phase: u8, pos: WorldPos)
    requires
        pos.spec_in_bounds(),
        (m.cells)(pos).type_id == TYPE_GENERATOR,
    ensures
        ({
            let g = (m.cells)(pos);
            let after = (engine_phase(m, tick, phase).cells)(pos);
            &&& after.type_id == TYPE_GENERATOR
            &&& after.state == if pos.spec_phase() == phase && spec_should_fire(
                tick as int,
                pos.spec_phase(),
                spec_generator_period(g) as int,
            ) {
                sat_inc16(g.state)
            } else {
                g.state
            }
        }),
{
    let gens = phase_gens(m.cells, phase);
    lemma_phase_gens(m.cells, phase, gens);
    if pos.spec_phase() == phase {
        let j = choose|j: int| 0 <= j < gens.len() && gens[j].0 == pos;
        assert(names(gens, pos));
    } else {
        if names(gens, pos) {
            let j = choose|j: int| 0 <= j < gens.len() && (#[trigger] gens[j]).0 == pos;
        }
    }
    lemma_fire_all_at(m, gens, tick, pos);
}

/// The unit step of direction `d`.
pub open spec fn direction_step(d: Direction) -> (int, int, int) {
    match d {
        Direction::PosX => (1, 0, 0),
        Direction::NegX => (-1, 0, 0),
        Direction::PosY => (0, 1, 0),
        Direction::NegY => (0, -1, 0),
        Direction::PosZ => (0, 0, 1),
        Direction::NegZ => (0, 0, -1),
    }
}

/// A transformer facing `d` reads the cell one step along `d`: whenever that
/// step stays in the world, the neighbor used as its input is the in-world
/// face neighbor at that offset, and the state it copies is that cell's.
pub proof fn lemma_transformer_reads_step_along_direction(
    cells: spec_fn(WorldPos) -> Cell,
    pos: WorldPos,
    d: Direction,
    state: u16,
)
    requires
        pos.spec_in_bounds(),
        offset_neighbor(pos, direction_step(d).0, direction_step(d).1, direction_step(d).2) is Some,
    ensures
        ({
            let n = offset_neighbor(pos, direction_step(d).0, direction_step(d).1, direction_step(d).2)->0;
            &&& spec_neighbor_in_direction(pos, d) == Some(n)
            &&& spec_neighbors_6(pos).contains(n)
            &&& transformer_input(cells, pos, spec_make_transformer(d, state)) == cells(n).state
        }),
{
    let n = offset_neighbor(pos, direction_step(d).0, direction_step(d).1, direction_step(d).2)->0;
    lemma_factory_round_trip(d, ReduceMode::Sum, 1, state);
    lemma_neighbors_6_are_face_neighbors(pos, n);
}

/// Some entry of `s` is at position `p`.
pub open spec fn names(s: Seq<(WorldPos, Cell)>, p: WorldPos) -> bool {
    exists|i: int| 0 <= i < s.len() && (#[trigger] s[i]).0 == p
}

/// Two lists sorted strictly by rank, naming the same positions, each
/// position with the same cell, are equal.
proof fn lemma_rank_sorted_unique(a: Seq<(WorldPos, Cell)>, b: Seq<(WorldPos, Cell)>, cells: spec_fn(WorldPos) -> Cell)
    requires
        forall|i: int| 0 <= i < a.len() ==> (#[trigger] a[i]).1 == cells(a[i].0),
        forall|i: int| 0 <= i < b.len() ==> (#[trigger] b[i]).1 == cells(b[i].0),
        forall|i: int, j: int| 0 <= i < j < a.len() ==> pos_rank((#[trigger] a[i]).0) < pos_rank((#[trigger] a[j]).0),
        forall|i: int, j: int| 0 <= i < j < b.len() ==> pos_rank((#[trigger] b[i]).0) < pos_rank((#[trigger] b[j]).0),
        forall|p: WorldPos| #[trigger] names(a, p) <==> names(b, p),
    ensures
        a == b,
    decreases a.len(),
{
    if a.len() == 0 {
        if b.len() > 0 {
            assert(names(b, b[0].0));
            assert(names(a, b[0].0));
            assert(false);
        }
        assert(a =~= b);
    } else {
        assert(names(a, a[0].0));
        assert(names(b, a[0].0));
        let j0 = choose|j: int| 0 <= j < b.len() && (#[trigger] b[j]).0 == a[0].0;
        assert(names(b, b[0].0));
        assert(names(a, b[0].0));
        let i0 = choose|i: int| 0 <= i < a.len() && (#[trigger] a[i]).0 == b[0].0;
        if j0 > 0 {
            assert(pos_rank(b[0].0) < pos_rank(b[j0].0));
            if i0 > 0 {
                assert(pos_rank(a[0].0) < pos_rank(a[i0].0));
            }
            assert(false);
        }
        assert(b[0].0 == a[0].0);
        assert(a[0] == b[0]);
        let ta = a.subrange(1, a.len() as int);
        let tb = b.subrange(1, b.len() as int);
        assert forall|p: WorldPos| #[trigger] names(ta, p) <==> names(tb, p) by {
            if names(ta, p) {
                let i = choose|i: int| 0 <= i < ta.len() && (#[trigger] ta[i]).0 == p;
                assert(a[i + 1].0 == p);
                assert(pos_rank(a[0].0) < pos_rank(a[i + 1].0));
                assert(names(a, p));
                assert(names(b, p));
                let j = choose|j: int| 0 <= j < b.len() && (#[trigger] b[j]).0 == p;
                assert(j != 0);
                assert(tb[j - 1].0 == p);
            }
            if names(tb, p) {
                let j = choose|j: int| 0 <= j < tb.len() && (#[trigger] tb[j]).0 == p;
                assert(b[j + 1].0 == p);
                assert(pos_rank(b[0].0) < pos_rank(b[j + 1].0));
                assert(names(b, p));
                assert(names(a, p));
                let i = choose|i: int| 0 <= i < a.len() && (#[trigger] a[i]).0 == p;
                assert(i != 0);
                assert(ta[i - 1].0 == p);
            }
        }
        assert forall|i: int| 0 <= i < ta.len() implies (#[trigger] ta[i]).1 == cells(ta[i].0) by {
            assert(ta[i] == a[i + 1]);
        }
        assert forall|i: int| 0 <= i < tb.len() implies (#[trigger] tb[i]).1 == cells(tb[i].0) by {
            assert(tb[i] == b[i + 1]);
        }
        assert forall|i: int, j: int| 0 <= i < j < ta.len() implies pos_rank((#[trigger] ta[i]).0) < pos_rank((#[trigger] ta[j]).0) by {
            assert(ta[i] == a[i + 1] && ta[j] == a[j + 1]);
        }
        assert forall|i: int, j: int| 0 <= i < j < tb.len() implies pos_rank((#[trigger] tb[i]).0) < pos_rank((#[trigger] tb[j]).0) by {
            assert(tb[i] == b[i + 1] && tb[j] == b[j + 1]);
        }
        lemma_rank_sorted_unique(ta, tb, cells);
        assert forall|i: int| 0 <= i < a.len() implies a[i] == b[i] by {
            if i > 0 {
                assert(a[i] == ta[i - 1]);
                assert(b[i] == tb[i - 1]);
            }
        }
        assert(a =~= b);
    }
}

/// The generators below rank `r` are listed in increasing rank, each with
/// its cell.
proof fn lemma_gens_upto(cells: spec_fn(WorldPos) -> Cell, phase: u8, r: nat)
    ensures
        ({
            let s = gens_upto(cells, phase, r);
            &&& forall|j: int|
                0 <= j < s.len() ==> {
                    &&& (#[trigger] s[j]).0.spec_in_bounds()
                    &&& s[j].1 == cells(s[j].0)
                    &&& s[j].1.type_id == TYPE_GENERATOR
                    &&& s[j].0.spec_phase() == phase
                    &&& pos_rank(s[j].0) < r
                }
            &&& forall|a: int, b: int| 0 <= a < b < s.len() ==> pos_rank((#[trigger] s[a]).0) < pos_rank((#[trigger] s[b]).0)
            &&& forall|p: WorldPos|
                p.spec_in_bounds() && (#[trigger] cells(p)).type_id == TYPE_GENERATOR && p.spec_phase() == phase && pos_rank(p) < r
                    ==> names(s, p)
        }),
    decreases r,
{
    if r > 0 {
        let prev = gens_upto(cells, phase, (r - 1) as nat);
        lemma_gens_upto(cells, phase, (r - 1) as nat);
        let s = gens_upto(cells, phase, r);
        let q = pos_of_rank(r - 1);
        assert forall|p: WorldPos|
            p.spec_in_bounds() && (#[trigger] cells(p)).type_id == TYPE_GENERATOR && p.spec_phase() == phase && pos_rank(p) < r
                implies names(s, p) by {
            if pos_rank(p) < r - 1 {
                let j = choose|j: int| 0 <= j < prev.len() && (#[trigger] prev[j]).0 == p;
                assert(s[j] == prev[j]);
            } else {
                lemma_pos_of_rank(p);
                assert(q == p);
                assert(s[prev.len() as int].0 == p);
            }
        }
        assert forall|a: int, b: int| 0 <= a < b < s.len() implies pos_rank((#[trigger] s[a]).0) < pos_rank((#[trigger] s[b]).0) by {
            assert(s[a] == prev[a]);
            if b < prev.len() {
                assert(s[b] == prev[b]);
            }
        }
        assert forall|j: int| 0 <= j < s.len() implies {
            &&& (#[trigger] s[j]).0.spec_in_bounds()
            &&& s[j].1 == cells(s[j].0)
            &&& s[j].1.type_id == TYPE_GENERATOR
            &&& s[j].0.spec_phase() == phase
            &&& pos_rank(s[j].0) < r
        } by {
            if j < prev.len() {
                assert(s[j] == prev[j]);
            }
        }
    }
}

/// The generator list of a phase bucket lists them all, and it is the only
/// such list.
pub proof fn lemma_phase_gens(cells: spec_fn(WorldPos) -> Cell, phase: u8, s: Seq<(WorldPos, Cell)>)
    ensures
        gen_list(cells, phase, phase_gens(cells, phase)),
        gen_list(cells, phase, s) ==> phase_gens(cells, phase) == s,
{
    let t = phase_gens(cells, phase);
    lemma_gens_upto(cells, phase, 134217728);
    assert forall|p: WorldPos|
        p.spec_in_bounds() && (#[trigger] cells(p)).type_id == TYPE_GENERATOR && p.spec_phase() == phase
            implies exists|j: int| 0 <= j < t.len() && t[j].0 == p by {
        lemma_pos_of_rank(p);
        assert(names(t, p));
    }
    if gen_list(cells, phase, s) {
        assert forall|p: WorldPos| #[trigger] names(s, p) <==> names(t, p) by {
            if names(s, p) {
                let i = choose|i: int| 0 <= i < s.len() && (#[trigger] s[i]).0 == p;
                assert(cells(p).type_id == TYPE_GENERATOR);
                let j = choose|j: int| 0 <= j < t.len() && t[j].0 == p;
                assert(t[j].0 == p);
            }
            if names(t, p) {
                let j = choose|j: int| 0 <= j < t.len() && (#[trigger] t[j]).0 == p;
                assert(cells(p).type_id == TYPE_GENERATOR);
                let i = choose|i: int| 0 <= i < s.len() && s[i].0 == p;
                assert(s[i].0 == p);
            }
        }
        lemma_rank_sorted_unique(s, t, cells);
    }
}

/// No generator listed in `gens` is due on `tick`.
pub open spec fn none_due(gens: Seq<(WorldPos, Cell)>, tick: u64) -> bool {
    forall|j: int|
        0 <= j < gens.len() ==> !spec_should_fire(tick as int, (#[trigger] gens[j]).0.spec_phase(), spec_generator_period(gens[j].1) as int)
}

/// No in-world generator of `cells` is due on tick `t`.
pub open spec fn no_generator_due(cells: spec_fn(WorldPos) -> Cell, t: int) -> bool {
    forall|p: WorldPos|
        p.spec_in_bounds() && (#[trigger] cells(p)).type_id == TYPE_GENERATOR
            ==> !spec_should_fire(t, p.spec_phase(), spec_generator_period(cells(p)) as int)
}

proof fn lemma_fire_none(m: SimModel, gens: Seq<(WorldPos, Cell)>, tick: u64)
    requires
        none_due(gens, tick),
    ensures
        fire_all(m, gens, tick) == m,
    decreases gens.len(),
{
    if gens.len() > 0 {
        assert(!spec_should_fire(tick as int, gens[gens.len() - 1].0.spec_phase(), spec_generator_period(gens[gens.len() - 1].1) as int));
        assert forall|j: int| 0 <= j < gens.drop_last().len() implies !spec_should_fire(
            tick as int,
            (#[trigger] gens.drop_last()[j]).0.spec_phase(),
            spec_generator_period(gens.drop_last()[j].1) as int,
        ) by {
            assert(gens.drop_last()[j] == gens[j]);
        }
        lemma_fire_none(m, gens.drop_last(), tick);
    }
}

proof fn lemma_quiet_phases(m: SimModel, tick: u64, n: nat)
    requires
        no_generator_due(m.cells, tick as int),
    ensures
        phases_run::<CellEngine>(m, tick, n) == m,
    decreases n,
{
    if n > 0 {
        lemma_quiet_phases(m, tick, (n - 1) as nat);
        let ph = (n - 1) as u8;
        let gens = phase_gens(m.cells, ph);
        lemma_phase_gens(m.cells, ph, gens);
        assert forall|j: int| 0 <= j < gens.len() implies !spec_should_fire(
            tick as int,
            (#[trigger] gens[j]).0.spec_phase(),
            spec_generator_period(gens[j].1) as int,
        ) by {
            assert(gens[j].1 == (m.cells)(gens[j].0));
        }
        lemma_fire_none(m, gens, tick);
    }
}

/// A tick on a stable configuration (nothing queued, no generator due)
/// changes nothing but forgetting the previous tick's drained positions: no
/// dirty loop runs and no update is counted, however many cells there are.
pub proof fn lemma_quiet_tick(m: SimModel, tick: u64, max_drain: usize, max_updates: usize)
    requires
        m.queue.len() == 0,
        no_generator_due(m.cells, tick as int),
    ensures
        tick_model::<CellEngine>(m, tick, max_drain, max_updates) == (SimModel { drained: Set::empty(), ..m }),
{
    let m1 = SimModel { drained: Set::empty(), ..m };
    let budget = drain_budget(max_drain, max_updates);
    let d0 = DrainModel { m: m1, count: 0 };
    assert(drain_run::<CellEngine>(d0, budget, max_updates as int, budget as nat) == d0);
    lemma_quiet_phases(m1, tick, PHASE_COUNT as nat);
}

/// Ticks on a stable configuration change nothing: after `n > 0` ticks in
/// which no generator is due and nothing is queued, the cells, queue and
/// update count are as before, nothing is pending, and the chunks reported
/// are those pending at the start.
pub proof fn lemma_quiet_run(m: SimModel, tick: int, n: nat, max_drain: usize, max_updates: usize)
    requires
        m.queue.len() == 0,
        0 <= tick,
        tick + n <= u64::MAX + 1,
        forall|t: int| tick <= t < tick + n ==> #[trigger] no_generator_due(m.cells, t),
    ensures
        n > 0 ==> run_model::<CellEngine>(m, tick, n, max_drain, max_updates) == (
            SimModel { drained: Set::empty(), pending: Set::empty(), ..m },
            m.pending,
        ),
    decreases n,
{
    if n > 0 {
        assert(no_generator_due(m.cells, tick));
        assert((tick as u64) as int == tick);
        lemma_quiet_tick(m, tick as u64, max_drain, max_updates);
        let m1 = tick_model::<CellEngine>(m, tick as u64, max_drain, max_updates);
        let m2 = SimModel { drained: Set::empty(), pending: Set::empty(), ..m };
        assert(SimModel { pending: Set::empty(), ..m1 } == m2);
        let rest = run_model::<CellEngine>(m2, tick + 1, (n - 1) as nat, max_drain, max_updates);
        assert(run_model::<CellEngine>(m, tick, n, max_drain, max_updates) == (rest.0, m1.pending.union(rest.1)));
        if n > 1 {
            assert forall|t: int| tick + 1 <= t < tick + 1 + (n - 1) implies #[trigger] no_generator_due(m2.cells, t) by {
                assert(no_generator_due(m.cells, t));
            }
            lemma_quiet_run(m2, tick + 1, (n - 1) as nat, max_drain, max_updates);
            assert(SimModel { drained: Set::empty(), pending: Set::empty(), ..m2 } == m2);
            assert(rest.0 == m2);
            assert(rest.1 == m2.pending);
        } else {
            assert(rest == (m2, Set::<ChunkCoord>::empty()));
        }
        assert(m1.pending.union(rest.1) =~= m.pending);
    }
}

/// Executes generator, transformer, and aggregator rules.
///
/// Read/write policy: neighbor values are read at the start of evaluation;
/// writes happen once at the end. Dirty propagation runs only when `state` or
/// `type_id` actually changes, preventing stable-configuration feedback loops.
#[derive(Clone, Copy, Debug, Default)]
pub struct CellEngine;

impl CellEngine {
    pub fn new() -> (r: Self)
        ensures
            r == CellEngine,
    {
        CellEngine
    }

    /// Mark transformer / aggregator neighbors dirty after a local state change.
    pub fn propagate_to_listeners(sim: &mut Simulation, pos: WorldPos)
        requires
            old(sim).wf(),
        ensures
            final(sim).wf(),
            final(sim).tick == old(sim).tick,
            final(sim).config == old(sim).config,
            sim_model(*final(sim)) == marked_model(sim_model(*old(sim)), listeners_around(cells_of(old(sim).world), pos)),
    {
        let neighbors = pos.neighbors_6();
        let ghost nb = neighbors@;
        let ghost s0 = *sim;
        let ghost m0 = sim_model(*sim);
        proof {
            assert(Seq::<WorldPos>::empty().to_set() =~= Set::<WorldPos>::empty());
            assert(chunks_of(Set::<WorldPos>::empty()) =~= Set::<ChunkCoord>::empty());
            assert(nb.take(0) =~= Seq::<WorldPos>::empty());
            assert(sim_model(*sim) =~= marked_model(m0, listeners_of(m0.cells, nb.take(0))));
        }
        let mut i: usize = 0;
        while i < neighbors.len()
            invariant
                nb == neighbors@,
                nb == spec_neighbors_6(pos),
                i <= nb.len(),
                s0.wf(),
                m0 == sim_model(s0),
                sim.wf(),
                sim.tick == s0.tick,
                sim.config == s0.config,
                sim_model(*sim) == marked_model(m0, listeners_of(m0.cells, nb.take(i as int))),
            decreases nb.len() - i,
        {
            let neighbor = neighbors[i];
            let ghost before = *sim;
            let ghost marked = listeners_of(m0.cells, nb.take(i as int));
            let cell = sim.world.get(neighbor);
            proof {
                assert(nb.take(i as int + 1).drop_last() =~= nb.take(i as int));
                assert(nb.take(i as int + 1).last() == neighbor);
                assert((sim_model(before).cells)(neighbor) == cell);
                assert(cell.type_id == (m0.cells)(neighbor).type_id) by {
                    assert(with_marks(m0.cells, marked.to_set())(neighbor).type_id == (m0.cells)(neighbor).type_id);
                }
            }
            if CellTypeRegistry::listens_to_neighbors(cell.type_id) {
                sim.mark_dirty(neighbor);
                proof {
                    Self::lemma_mark_step(s0, before, *sim, marked, neighbor);
                }
            } else {
                proof {
                    assert(listeners_of(m0.cells, nb.take(i as int + 1)) == marked);
                }
            }
            i = i + 1;
        }
        proof {
            assert(nb.take(nb.len() as int) =~= nb);
        }
    }

    /// Write a cell and propagate dirties to event-driven neighbors when its
    /// state or type changed. Returns whether it did.
    fn write_cell(sim: &mut Simulation, pos: WorldPos, cell: Cell) -> (r: bool)
        requires
            old(sim).wf(),
        ensures
            final(sim).wf(),
            final(sim).tick == old(sim).tick,
            final(sim).config == old(sim).config,
            old(sim).pending_chunks().subset_of(final(sim).pending_chunks()),
            r == write_counts(cells_of(old(sim).world), pos, cell),
            sim_model(*final(sim)) == write_model(sim_model(*old(sim)), pos, cell),
    {
        let ghost s0 = *sim;
        let ghost m0 = sim_model(*sim);
        let before = sim.world.get(pos);
        proof {
            s0.world.chunks.lemma_empty_cells_are_zero(pos);
        }
        if before == cell {
            return false;
        }
        sim.world.set(pos, cell);
        sim.mark_chunk_dirty(pos.chunk_coord());
        let ghost s1 = *sim;
        let ghost stored = SimModel {
            cells: |q: WorldPos| if q == pos && pos.spec_in_bounds() { stored_value(cell) } else { (m0.cells)(q) },
            pending: m0.pending.insert(pos.spec_chunk_coord()),
            ..m0
        };
        proof {
            assert(cells_of(s1.world) =~= stored.cells);
            assert(sim_model(s1) =~= stored);
        }
        let after = sim.world.get(pos);
        if before.state != after.state || before.type_id != after.type_id {
            proof {
                assert(pos.spec_in_bounds());
                lemma_neighbors_6_are_face_neighbors(pos, pos);
                let nb = spec_neighbors_6(pos);
                assert forall|i: int| 0 <= i < nb.len() implies (#[trigger] cells_of(s1.world)(nb[i])).type_id == (m0.cells)(nb[i]).type_id by {
                    assert(nb.contains(nb[i]));
                }
                lemma_listeners_of_types(cells_of(s1.world), m0.cells, nb);
            }
            Self::propagate_to_listeners(sim, pos);
            proof {
                assert(write_changes(m0.cells, pos, cell));
            }
            return true;
        }
        proof {
            assert(!write_changes(m0.cells, pos, cell));
        }
        false
    }

    fn neighbor_in_direction(pos: WorldPos, direction: Direction) -> (r: Option<WorldPos>)
        ensures
            r == spec_neighbor_in_direction(pos, direction),
    {
        let candidate = match direction {
            Direction::PosX => WorldPos::new(pos.x.saturating_add(1), pos.y, pos.z),
            Direction::NegX => WorldPos::new(pos.x.saturating_sub(1), pos.y, pos.z),
            Direction::PosY => WorldPos::new(pos.x, pos.y.saturating_add(1), pos.z),
            Direction::NegY => WorldPos::new(pos.x, pos.y.saturating_sub(1), pos.z),
            Direction::PosZ => WorldPos::new(pos.x, pos.y, pos.z.saturating_add(1)),
            Direction::NegZ => WorldPos::new(pos.x, pos.y, pos.z.saturating_sub(1)),
        };
        if candidate.is_in_bounds() {
            Some(candidate)
        } else {
            None
        }
    }

    /// Write `cell` at `pos` and count the update when the write changed it.
    fn write_counted(sim: &mut Simulation, pos: WorldPos, cell: Cell)
        requires
            old(sim).wf(),
        ensures
            final(sim).wf(),
            final(sim).tick == old(sim).tick,
            final(sim).config == old(sim).config,
            old(sim).pending_chunks().subset_of(final(sim).pending_chunks()),
            sim_model(*final(sim)) == written(sim_model(*old(sim)), pos, cell),
    {
        let ghost m0 = sim_model(*sim);
        if Self::write_cell(sim, pos, cell) {
            sim.record_cell_update();
        }
        proof {
            assert(sim_model(*sim) =~= written(m0, pos, cell));
        }
    }

    /// Copy the input neighbor's state into a transformer cell.
    fn process_transformer(&mut self, sim: &mut Simulation, pos: WorldPos, cell: Cell)
        requires
            old(sim).wf(),
        ensures
            final(sim).wf(),
            final(sim).tick == old(sim).tick,
            final(sim).config == old(sim).config,
            old(sim).pending_chunks().subset_of(final(sim).pending_chunks()),
            sim_model(*final(sim)) == settle_model(sim_model(*old(sim)), pos, cell, transformer_input(cells_of(old(sim).world), pos, cell)),
    {
        let direction = transformer_direction(cell);
        let input_state = match Self::neighbor_in_direction(pos, direction) {
            Some(neighbor) => sim.world.get(neighbor).state,
            None => 0,
        };
        if cell.state == input_state {
            return;
        }
        let mut next = cell;
        next.state = input_state;
        Self::write_counted(sim, pos, next);
    }

    /// Reduce the face neighbors' states into an aggregator cell.
    fn process_aggregator(&mut self, sim: &mut Simulation, pos: WorldPos, cell: Cell)
        requires
            old(sim).wf(),
        ensures
            final(sim).wf(),
            final(sim).tick == old(sim).tick,
            final(sim).config == old(sim).config,
            old(sim).pending_chunks().subset_of(final(sim).pending_chunks()),
            sim_model(*final(sim)) == settle_model(sim_model(*old(sim)), pos, cell, aggregator_target(cells_of(old(sim).world), pos, cell)),
    {
        let mode = aggregator_mode(cell);
        let mut sum: u32 = 0;
        let mut max: u16 = 0;
        let neighbors = pos.neighbors_6();
        let ghost nb = neighbors@;
        let ghost cells = cells_of(sim.world);
        let mut i: usize = 0;
        while i < neighbors.len()
            invariant
                sim.wf(),
                cells == cells_of(sim.world),
                nb == neighbors@,
                nb == spec_neighbors_6(pos),
                nb.len() <= 6,
                i <= nb.len(),
                sum == state_sum(cells, nb.take(i as int)),
                sum <= i * 65535,
                max == state_max(cells, nb.take(i as int)),
            decreases nb.len() - i,
        {
            let value = sim.world.get(neighbors[i]).state;
            proof {
                assert(nb.take(i as int + 1).drop_last() =~= nb.take(i as int));
                assert(nb.take(i as int + 1).last() == nb[i as int]);
            }
            sum = sum.saturating_add(value as u32);
            if value > max {
                max = value;
            }
            i = i + 1;
        }
        proof {
            assert(nb.take(nb.len() as int) =~= nb);
        }
        let next_state: u16 = match mode {
            ReduceMode::Sum => if sum > u16::MAX as u32 { u16::MAX } else { sum as u16 },
            ReduceMode::Max => max,
        };
        if cell.state == next_state {
            return;
        }
        let mut next = cell;
        next.state = next_state;
        Self::write_counted(sim, pos, next);
    }

    /// Pulse a generator: its state counts fires (saturating).
    fn fire_generator(&mut self, sim: &mut Simulation, pos: WorldPos, cell: Cell)
        requires
            old(sim).wf(),
        ensures
            final(sim).wf(),
            final(sim).tick == old(sim).tick,
            final(sim).config == old(sim).config,
            old(sim).pending_chunks().subset_of(final(sim).pending_chunks()),
            sim_model(*final(sim)) == written(sim_model(*old(sim)), pos, fired_cell(cell)),
    {
        let mut next = cell;
        next.state = next.state.saturating_add(1);
        Self::write_counted(sim, pos, next);
    }

    /// In-world generators of phase bucket `phase_id`, in increasing rank.
    #[verifier::spinoff_prover]
    #[verifier::rlimit(40)]
    fn phase_generators(world: &World, phase_id: u8) -> (r: Vec<(WorldPos, Cell)>)
        requires
            world.wf(),
        ensures
            forall|j: int|
                0 <= j < r@.len() ==> {
                    &&& (#[trigger] r@[j]).0.spec_in_bounds()
                    &&& r@[j].1 == world.cell(r@[j].0)
                    &&& r@[j].1.type_id == TYPE_GENERATOR
                    &&& r@[j].0.spec_phase() == phase_id
                },
            forall|a: int, b: int| 0 <= a < b < r@.len() ==> pos_rank((#[trigger] r@[a]).0) < pos_rank((#[trigger] r@[b]).0),
            forall|p: WorldPos|
                p.spec_in_bounds() && (#[trigger] world.cell(p)).type_id == TYPE_GENERATOR && p.spec_phase() == phase_id
                    ==> exists|j: int| 0 <= j < r@.len() && r@[j].0 == p,
    {
        let all = world.chunks.iter_non_empty();
        let mut out: Vec<(WorldPos, Cell)> = Vec::new();
        let mut i: usize = 0;
        while i < all.len()
            invariant
                world.wf(),
                i <= all@.len(),
                forall|m: int|
                    0 <= m < all@.len() ==> {
                        &&& (#[trigger] all@[m]).0.spec_in_bounds()
                        &&& all@[m].1 == world.cell(all@[m].0)
                        &&& !all@[m].1.spec_is_empty()
                    },
                forall|a: int, b: int| 0 <= a < b < all@.len() ==> pos_rank((#[trigger] all@[a]).0) < pos_rank((#[trigger] all@[b]).0),
                forall|j: int| 0 <= j < out@.len() ==> exists|m: int| 0 <= m < i && #[trigger] out@[j] == all@[m],
                forall|j: int|
                    0 <= j < out@.len() ==> {
                        &&& (#[trigger] out@[j]).1.type_id == TYPE_GENERATOR
                        &&& out@[j].0.spec_phase() == phase_id
                    },
                forall|a: int, b: int| 0 <= a < b < out@.len() ==> pos_rank((#[trigger] out@[a]).0) < pos_rank((#[trigger] out@[b]).0),
                forall|m: int|
                    0 <= m < i && (#[trigger] all@[m]).1.type_id == TYPE_GENERATOR && all@[m].0.spec_phase() == phase_id
                        ==> exists|j: int| 0 <= j < out@.len() && out@[j] == all@[m],
            decreases all@.len() - i,
        {
            let (pos, cell) = all[i];
            let ghost before = out@;
            if cell.type_id == TYPE_GENERATOR && pos.phase() == phase_id {
                out.push((pos, cell));
                proof {
                    assert(out@[before.len() as int] == all@[i as int]);
                    assert forall|j: int| 0 <= j < out@.len() implies exists|m: int| 0 <= m < i + 1 && #[trigger] out@[j] == all@[m] by {
                        if j < before.len() {
                            assert(out@[j] == before[j]);
                        }
                    }
                    assert forall|a: int, b: int| 0 <= a < b < out@.len() implies pos_rank((#[trigger] out@[a]).0) < pos_rank((#[trigger] out@[b]).0) by {
                        assert(out@[a] == before[a]);
                        if b < before.len() {
                            assert(out@[b] == before[b]);
                        } else {
                            let m = choose|m: int| 0 <= m < i && before[a] == all@[m];
                            assert(pos_rank(all@[m].0) < pos_rank(all@[i as int].0));
                        }
                    }
                    assert forall|m: int|
                        0 <= m < i + 1 && (#[trigger] all@[m]).1.type_id == TYPE_GENERATOR && all@[m].0.spec_phase() == phase_id
                            implies exists|j: int| 0 <= j < out@.len() && out@[j] == all@[m] by {
                        if m < i {
                            let j = choose|j: int| 0 <= j < before.len() && before[j] == all@[m];
                            assert(out@[j] == before[j]);
                        }
                    }
                    assert forall|j: int| 0 <= j < out@.len() implies {
                        &&& (#[trigger] out@[j]).1.type_id == TYPE_GENERATOR
                        &&& out@[j].0.spec_phase() == phase_id
                    } by {
                        if j < before.len() {
                            assert(out@[j] == before[j]);
                        }
                    }
                }
            }
            i = i + 1;
        }
        proof {
            assert forall|j: int| 0 <= j < out@.len() implies {
                &&& (#[trigger] out@[j]).0.spec_in_bounds()
                &&& out@[j].1 == world.cell(out@[j].0)
                &&& out@[j].1.type_id == TYPE_GENERATOR
                &&& out@[j].0.spec_phase() == phase_id
            } by {
                let m = choose|m: int| 0 <= m < i && out@[j] == all@[m];
            }
            assert forall|p: WorldPos|
                p.spec_in_bounds() && (#[trigger] world.cell(p)).type_id == TYPE_GENERATOR && p.spec_phase() == phase_id
                    implies exists|j: int| 0 <= j < out@.len() && out@[j].0 == p by {
                assert(!world.cell(p).spec_is_empty());
                let m = choose|m: int| 0 <= m < all@.len() && all@[m].0 == p;
                assert(all@[m].1.type_id == TYPE_GENERATOR);
                let j = choose|j: int| 0 <= j < out@.len() && out@[j] == all@[m];
            }
        }
        out
    }

    /// One more mark extends the marked model.
    proof fn lemma_mark_step(s0: Simulation, before: Simulation, after: Simulation, marked: Seq<WorldPos>, n: WorldPos)
        requires
            s0.wf(),
            sim_model(before) == marked_model(sim_model(s0), marked),
            listens(s0.world.cell(n).type_id),
            after.wf(),
            after.tick == before.tick,
            after.config == before.config,
            after.total_cell_updates == before.total_cell_updates,
            !n.spec_in_bounds() ==> after == before,
            n.spec_in_bounds() ==> {
                &&& after.queue() == if before.queue().contains(n) {
                    before.queue()
                } else {
                    before.queue().push(n)
                }
                &&& after.pending_chunks() == before.pending_chunks().insert(n.spec_chunk_coord())
                &&& after.dirty.drained() == before.dirty.drained()
                &&& (!before.world.cell(n).spec_is_empty() ==> before.world.chunks.cells_after_set(
                    after.world.chunks,
                    n,
                    spec_with_dirty(before.world.cell(n)),
                ))
                &&& (before.world.cell(n).spec_is_empty() ==> before.world.same_cells(after.world))
            },
        ensures
            sim_model(after) == marked_model(sim_model(s0), marked.push(n)),
    {
        let m0 = sim_model(s0);
        assert(n.spec_in_bounds());
        assert(marked.push(n).drop_last() =~= marked);
        assert(marked.push(n).last() == n);
        lemma_to_set_push(marked, n);
        lemma_chunks_of(marked.to_set(), Set::empty(), n);
        let f = s0.world.cell(n).flags;
        assert((f | 1u8) | 1u8 == f | 1u8) by (bit_vector);
        assert(before.world.cell(n) == (sim_model(before).cells)(n));
        assert(!before.world.cell(n).spec_is_empty());
        assert forall|q: WorldPos| #[trigger] cells_of(after.world)(q) == with_marks(m0.cells, marked.push(n).to_set())(q) by {
            assert(before.world.cell(q) == (sim_model(before).cells)(q));
            assert(after.world.chunks.cell(q) == if q == n && n.spec_in_bounds() {
                stored_value(spec_with_dirty(before.world.cell(n)))
            } else {
                before.world.chunks.cell(q)
            });
        }
        assert(cells_of(after.world) =~= with_marks(m0.cells, marked.push(n).to_set()));
        assert(m0.pending.union(chunks_of(marked.push(n).to_set())) =~= m0.pending.union(chunks_of(marked.to_set())).insert(n.spec_chunk_coord()));
        assert(sim_model(after) =~= marked_model(m0, marked.push(n)));
    }
}

impl SimHooks for CellEngine {
    open spec fn dirty_model(m: SimModel, pos: WorldPos) -> SimModel {
        engine_dirty(m, pos)
    }

    open spec fn phase_model(m: SimModel, tick: u64, phase: u8) -> SimModel {
        engine_phase(m, tick, phase)
    }

    /// Transformers copy their input neighbor's state and aggregators reduce
    /// their neighbors' states; other cells are left alone.
    fn on_dirty_cell(&mut self, sim: &mut Simulation, pos: WorldPos) {
        let cell = sim.world.get(pos);
        if cell.type_id == TYPE_TRANSFORMER {
            self.process_transformer(sim, pos, cell);
        } else if cell.type_id == TYPE_AGGREGATOR {
            self.process_aggregator(sim, pos, cell);
        }
    }

    /// Fire every generator of phase bucket `phase_id` due on `tick`, in
    /// increasing rank.
    fn on_phase_tick(&mut self, sim: &mut Simulation, tick: u64, phase_id: u8) {
        let ghost m0 = sim_model(*sim);
        let generators = Self::phase_generators(&sim.world, phase_id);
        let ghost gens = generators@;
        proof {
            assert(gen_list(m0.cells, phase_id, gens));
            lemma_phase_gens(m0.cells, phase_id, gens);
            assert(gens.take(0) =~= Seq::<(WorldPos, Cell)>::empty());
        }
        let mut k: usize = 0;
        while k < generators.len()
            invariant
                sim.wf(),
                gens == generators@,
                k <= gens.len(),
                sim.tick == old(sim).tick,
                sim.config == old(sim).config,
                old(sim).pending_chunks().subset_of(sim.pending_chunks()),
                sim_model(*sim) == fire_all(m0, gens.take(k as int), tick),
            decreases gens.len() - k,
        {
            let (pos, cell) = generators[k];
            proof {
                assert(gens.take(k as int + 1).drop_last() =~= gens.take(k as int));
                assert(gens.take(k as int + 1).last() == gens[k as int]);
            }
            let period = generator_period(cell);
            if generator_should_fire(tick, pos, period) {
                self.fire_generator(sim, pos, cell);
            }
            k = k + 1;
        }
        proof {
            assert(gens.take(gens.len() as int) =~= gens);
        }
    }
}

} // verus!
