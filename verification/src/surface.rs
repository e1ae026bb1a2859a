//! View-dependent surface extraction for the six orthographic faces.
use vstd::prelude::*;
use vstd::std_specs::iter::IteratorSpec;

use std::collections::HashMap;

use crate::cell::Cell;
use crate::constants::{CHUNK_SIZE, CHUNKS_PER_AXIS, WORLD_SIZE};
use crate::coord::{ChunkCoord, WorldPos};
use crate::sim::Simulation;
use crate::view::{axis_coord, axis_sign, GridDir, OrthoView, ViewPose};
use crate::world::{pos_rank, World};

verus! {

broadcast use vstd::std_specs::hash::group_hash_axioms;

/// 2D projection key of `pos` on `view`: the two coordinates across the face.
pub open spec fn spec_view_key(pos: WorldPos, view: OrthoView) -> (u16, u16) {
    match view {
        OrthoView::Top | OrthoView::Bottom => (pos.x, pos.z),
        OrthoView::Front | OrthoView::Back => (pos.x, pos.y),
        OrthoView::Left | OrthoView::Right => (pos.y, pos.z),
    }
}

/// `candidate` lies nearer to the camera of `view` than `current`.
pub open spec fn spec_is_better(candidate: WorldPos, current: WorldPos, view: OrthoView) -> bool {
    match view {
        OrthoView::Top => candidate.y > current.y,
        OrthoView::Bottom => candidate.y < current.y,
        OrthoView::Front => candidate.z > current.z,
        OrthoView::Back => candidate.z < current.z,
        OrthoView::Left => candidate.x < current.x,
        OrthoView::Right => candidate.x > current.x,
    }
}

/// Depth of `pos` along the axis perpendicular to `view`.
pub open spec fn spec_cell_depth(pos: WorldPos, view: OrthoView) -> u16 {
    view.spec_slice_depth(pos)
}

/// The cell lies at or behind the slice plane (not between slice and camera).
pub open spec fn spec_visible_at_slice(pos: WorldPos, pose: ViewPose, slice_depth: u16) -> bool {
    let depth = spec_cell_depth(pos, pose.spec_face());
    if pose.spec_slice_uses_lte() {
        depth <= slice_depth
    } else {
        depth >= slice_depth
    }
}

/// Back-to-front draw key: larger keys are nearer to the camera.
pub open spec fn spec_depth_draw_order(pos: WorldPos, pose: ViewPose) -> u16 {
    let depth = spec_cell_depth(pos, pose.spec_face());
    if pose.spec_slice_uses_lte() {
        depth
    } else {
        (u16::MAX - depth) as u16
    }
}

/// The chunks whose rendered column through `pos` runs along the depth axis
/// of `view`, in increasing order along that axis.
pub open spec fn spec_affected_chunks(pos: WorldPos, view: OrthoView) -> Seq<ChunkCoord> {
    let c = pos.spec_chunk_coord();
    Seq::new(
        CHUNKS_PER_AXIS as nat,
        |i: int|
            match view {
                OrthoView::Top | OrthoView::Bottom => ChunkCoord { x: c.x, y: i as u16, z: c.z },
                OrthoView::Front | OrthoView::Back => ChunkCoord { x: c.x, y: c.y, z: i as u16 },
                OrthoView::Left | OrthoView::Right => ChunkCoord { x: i as u16, y: c.y, z: c.z },
            },
    )
}

/// 2D projection key for a view face.
pub fn view_key(pos: WorldPos, view: OrthoView) -> (r: (u16, u16))
    ensures
        r == spec_view_key(pos, view),
{
    match view {
        OrthoView::Top | OrthoView::Bottom => (pos.x, pos.z),
        OrthoView::Front | OrthoView::Back => (pos.x, pos.y),
        OrthoView::Left | OrthoView::Right => (pos.y, pos.z),
    }
}

fn is_better(candidate: WorldPos, current: WorldPos, view: OrthoView) -> (r: bool)
    ensures
        r == spec_is_better(candidate, current, view),
{
    match view {
        OrthoView::Top => candidate.y > current.y,
        OrthoView::Bottom => candidate.y < current.y,
        OrthoView::Front => candidate.z > current.z,
        OrthoView::Back => candidate.z < current.z,
        OrthoView::Left => candidate.x < current.x,
        OrthoView::Right => candidate.x > current.x,
    }
}

/// Depth coordinate of `pos` along the axis perpendicular to `view`.
pub fn cell_depth(pos: WorldPos, view: OrthoView) -> (r: u16)
    ensures
        r == spec_cell_depth(pos, view),
{
    view.slice_depth(pos)
}

/// Slice depth that shows the full grid (no clipping) for `view`.
pub fn unclipped_slice_depth(view: OrthoView) -> (r: u16)
    ensures
        r == (if view.spec_slice_uses_lte() { WORLD_SIZE - 1 } else { 0 }),
{
    match view {
        OrthoView::Left | OrthoView::Bottom | OrthoView::Back => 0,
        OrthoView::Top | OrthoView::Front | OrthoView::Right => (WORLD_SIZE - 1) as u16,
    }
}

/// True when the cell is at or behind the slice plane (not between slice and camera).
pub fn is_cell_visible_at_slice(pos: WorldPos, pose: ViewPose, slice_depth: u16) -> (r: bool)
    ensures
        r == spec_visible_at_slice(pos, pose, slice_depth),
{
    let depth = cell_depth(pos, pose.face());
    if pose.slice_uses_lte() {
        depth <= slice_depth
    } else {
        depth >= slice_depth
    }
}

/// True when the cell lies on the active slice plane.
pub fn is_on_slice(pos: WorldPos, pose: ViewPose, slice_depth: u16) -> (r: bool)
    ensures
        r == (spec_cell_depth(pos, pose.spec_face()) == slice_depth),
{
    cell_depth(pos, pose.face()) == slice_depth
}

/// Sort key for back-to-front draw order (farther cells first).
pub fn depth_draw_order(pos: WorldPos, pose: ViewPose) -> (r: u16)
    ensures
        r == spec_depth_draw_order(pos, pose),
{
    let depth = cell_depth(pos, pose.face());
    if pose.slice_uses_lte() {
        depth
    } else {
        u16::MAX - depth
    }
}

/// Chunks whose rendered instance buffers may change when `pos` updates.
pub fn affected_chunks(pos: WorldPos, view: OrthoView) -> (r: Vec<ChunkCoord>)
    ensures
        r@ == spec_affected_chunks(pos, view),
{
    let cx = pos.x / CHUNK_SIZE;
    let cy = pos.y / CHUNK_SIZE;
    let cz = pos.z / CHUNK_SIZE;
    let mut out: Vec<ChunkCoord> = Vec::new();
    let mut i: u16 = 0;
    while i < CHUNKS_PER_AXIS
        invariant
            i <= CHUNKS_PER_AXIS,
            cx == pos.spec_chunk_coord().x,
            cy == pos.spec_chunk_coord().y,
            cz == pos.spec_chunk_coord().z,
            out@ == spec_affected_chunks(pos, view).take(i as int),
        decreases CHUNKS_PER_AXIS - i,
    {
        let c = match view {
            OrthoView::Top | OrthoView::Bottom => ChunkCoord::new(cx, i, cz),
            OrthoView::Front | OrthoView::Back => ChunkCoord::new(cx, cy, i),
            OrthoView::Left | OrthoView::Right => ChunkCoord::new(i, cy, cz),
        };
        out.push(c);
        i = i + 1;
        assert(out@ =~= spec_affected_chunks(pos, view).take(i as int));
    }
    assert(out@ =~= spec_affected_chunks(pos, view));
    out
}

/// The entries of `cells` that lie in chunk `coord`.
pub open spec fn in_chunk(coord: ChunkCoord) -> spec_fn((WorldPos, Cell)) -> bool {
    |e: (WorldPos, Cell)| e.0.spec_chunk_coord() == coord
}

/// Visible cells that render from a given chunk, in their input order.
pub fn cells_for_chunk(cells: &[(WorldPos, Cell)], coord: ChunkCoord) -> (r: Vec<(WorldPos, Cell)>)
    ensures
        r@ == cells@.filter(in_chunk(coord)),
{
    let mut out: Vec<(WorldPos, Cell)> = Vec::new();
    let mut i: usize = 0;
    while i < cells.len()
        invariant
            i <= cells@.len(),
            out@ == cells@.take(i as int).filter(in_chunk(coord)),
        decreases cells@.len() - i,
    {
        let e = cells[i];
        proof {
            assert(cells@.take(i as int + 1) =~= cells@.take(i as int).push(e));
            cells@.take(i as int).lemma_filter_push(e, in_chunk(coord));
        }
        if e.0.chunk_coord() == coord {
            out.push(e);
        }
        i = i + 1;
    }
    assert(cells@.take(cells@.len() as int) =~= cells@);
    out
}

/// A column key packed into one integer (`u` in the high half).
pub open spec fn pack_key(k: (u16, u16)) -> u32 {
    (k.0 as int * 65536 + k.1 as int) as u32
}

/// The column key packed into `n`.
pub open spec fn unpack_key(n: u32) -> (u16, u16) {
    ((n / 65536) as u16, (n % 65536) as u16)
}

proof fn lemma_pack_key(k: (u16, u16))
    ensures
        0 <= k.0 as int * 65536 + k.1 as int <= u32::MAX,
        unpack_key(pack_key(k)) == k,
{
    let n = k.0 as int * 65536 + k.1 as int;
    assert(0 <= n <= u32::MAX) by (nonlinear_arith)
        requires
            n == k.0 as int * 65536 + k.1 as int,
            0 <= k.0 < 65536,
            0 <= k.1 < 65536,
    ;
    assert(n / 65536 == k.0 && n % 65536 == k.1) by (nonlinear_arith)
        requires
            n == k.0 as int * 65536 + k.1 as int,
            0 <= k.0 < 65536,
            0 <= k.1 < 65536,
    ;
}

proof fn lemma_pack_key_injective(a: (u16, u16), b: (u16, u16))
    ensures
        pack_key(a) == pack_key(b) <==> a == b,
{
    lemma_pack_key(a);
    lemma_pack_key(b);
}

fn pack_key_exec(k: (u16, u16)) -> (r: u32)
    ensures
        r == pack_key(k),
{
    proof {
        lemma_pack_key(k);
    }
    k.0 as u32 * 65536 + k.1 as u32
}

/// The outermost visible cell of each screen column of one face.
pub struct SurfaceMap {
    columns: HashMap<u32, (WorldPos, Cell)>,
}

impl SurfaceMap {
    #[verifier::type_invariant]
    spec fn keys_packed(self) -> bool {
        forall|n: u32| #[trigger] self.columns@.contains_key(n) ==> pack_key(unpack_key(n)) == n
    }
}

impl View for SurfaceMap {
    type V = Map<(u16, u16), (WorldPos, Cell)>;

    closed spec fn view(&self) -> Map<(u16, u16), (WorldPos, Cell)> {
        Map::new(
            |k: (u16, u16)| self.columns@.contains_key(pack_key(k)),
            |k: (u16, u16)| self.columns@[pack_key(k)],
        )
    }
}

impl SurfaceMap {
    /// The surface entry of column `key`, if the column holds a visible cell.
    pub fn get(&self, key: (u16, u16)) -> (r: Option<(WorldPos, Cell)>)
        ensures
            r == (if self@.contains_key(key) { Some(self@[key]) } else { None }),
    {
        let n = pack_key_exec(key);
        match self.columns.get(&n) {
            Some(e) => Some(*e),
            None => None,
        }
    }

    /// All surface entries, each once, in no particular order.
    pub fn cells(&self) -> (r: Vec<(WorldPos, Cell)>)
        ensures
            forall|e: (WorldPos, Cell)| #[trigger] r@.contains(e) <==> exists|k: (u16, u16)| #[trigger] self@.contains_key(k) && self@[k] == e,
    {
        proof {
            use_type_invariant(self);
        }
        let mut out: Vec<(WorldPos, Cell)> = Vec::new();
        let ghost vals = self.columns@.values();
        let iter = self.columns.values();
        let ghost full = iter.remaining().unref();
        for e in it: iter
            invariant
                vals == self.columns@.values(),
                full.to_set() == vals,
                it.seq().unref() == full,
                out@ == it.seq().take(it.index() as int).unref(),
        {
            out.push(*e);
            proof {
                assert(it.seq().take(it.index() + 1).unref() =~= it.seq().take(it.index() as int).unref().push(*e));
            }
        }
        proof {
            assert(out@ =~= full);
            assert forall|e: (WorldPos, Cell)| #[trigger] out@.contains(e) <==> exists|k: (u16, u16)| #[trigger] self@.contains_key(k) && self@[k] == e by {
                if out@.contains(e) {
                    assert(out@.to_set().contains(e));
                    assert(vals.contains(e));
                    let n = choose|n: u32| #[trigger] self.columns@.contains_key(n) && self.columns@[n] == e;
                    let k = unpack_key(n);
                    assert(self@.contains_key(k));
                }
                if exists|k: (u16, u16)| #[trigger] self@.contains_key(k) && self@[k] == e {
                    let k = choose|k: (u16, u16)| #[trigger] self@.contains_key(k) && self@[k] == e;
                    assert(self.columns@.contains_key(pack_key(k)));
                    assert(vals.contains(e));
                    assert(out@.to_set().contains(e));
                }
            }
        }
        out
    }
}

/// `p` is a non-empty in-world cell that the slice leaves visible.
pub open spec fn surface_candidate(world: World, pose: ViewPose, slice_depth: u16, p: WorldPos) -> bool {
    &&& p.spec_in_bounds()
    &&& !world.cell(p).spec_is_empty()
    &&& spec_visible_at_slice(p, pose, slice_depth)
}

/// `p` is the visible cell nearest to the camera in its screen column.
pub open spec fn is_surface_cell(world: World, pose: ViewPose, slice_depth: u16, p: WorldPos) -> bool {
    &&& surface_candidate(world, pose, slice_depth, p)
    &&& forall|q: WorldPos|
        #[trigger] surface_candidate(world, pose, slice_depth, q) && spec_view_key(q, pose.spec_face())
            == spec_view_key(p, pose.spec_face()) ==> !spec_is_better(q, p, pose.spec_face())
}

/// Facts kept while scanning `cells` (the non-empty cells of `world` in
/// rank order): `columns` holds, for each column met among the first `i`
/// entries, the visible entry nearest to the camera so far.
spec fn scan_state(
    world: World,
    pose: ViewPose,
    slice_depth: u16,
    cells: Seq<(WorldPos, Cell)>,
    i: int,
    columns: Map<u32, (WorldPos, Cell)>,
) -> bool {
    let view = pose.spec_face();
    &&& forall|n: u32| #[trigger] columns.contains_key(n) ==> pack_key(unpack_key(n)) == n
    &&& forall|k: (u16, u16)|
        #[trigger] columns.contains_key(pack_key(k)) <==> exists|j: int|
            0 <= j < i && spec_visible_at_slice((#[trigger] cells[j]).0, pose, slice_depth)
                && spec_view_key(cells[j].0, view) == k
    &&& forall|k: (u16, u16)|
        #[trigger] columns.contains_key(pack_key(k)) ==> {
            let e = columns[pack_key(k)];
            &&& spec_view_key(e.0, view) == k
            &&& e.1 == world.cell(e.0)
            &&& surface_candidate(world, pose, slice_depth, e.0)
            &&& forall|j: int|
                0 <= j < i && spec_visible_at_slice((#[trigger] cells[j]).0, pose, slice_depth)
                    && spec_view_key(cells[j].0, view) == k ==> !spec_is_better(cells[j].0, e.0, view)
        }
}

/// Build the visible surface map for the active orthographic face, clipped at `slice_depth`.
pub fn visible_surface(sim: &Simulation, pose: ViewPose, slice_depth: u16) -> (r: SurfaceMap)
    requires
        sim.wf(),
    ensures
        forall|k: (u16, u16)|
            #[trigger] r@.contains_key(k) <==> exists|p: WorldPos|
                #[trigger] surface_candidate(sim.world, pose, slice_depth, p) && spec_view_key(p, pose.spec_face()) == k,
        forall|k: (u16, u16)|
            #[trigger] r@.contains_key(k) ==> {
                &&& spec_view_key(r@[k].0, pose.spec_face()) == k
                &&& r@[k].1 == sim.world.cell(r@[k].0)
                &&& is_surface_cell(sim.world, pose, slice_depth, r@[k].0)
            },
{
    let view = pose.face();
    let cells = sim.world.chunks.iter_non_empty();
    let mut columns: HashMap<u32, (WorldPos, Cell)> = HashMap::new();
    let mut i: usize = 0;
    while i < cells.len()
        invariant
            i <= cells@.len(),
            view == pose.spec_face(),
            forall|j: int|
                0 <= j < cells@.len() ==> {
                    &&& (#[trigger] cells@[j]).0.spec_in_bounds()
                    &&& cells@[j].1 == sim.world.cell(cells@[j].0)
                    &&& !cells@[j].1.spec_is_empty()
                },
            scan_state(sim.world, pose, slice_depth, cells@, i as int, columns@),
        decreases cells@.len() - i,
    {
        let (pos, cell) = cells[i];
        let ghost before = columns@;
        if !cell.is_empty() && is_cell_visible_at_slice(pos, pose, slice_depth) {
            let key = view_key(pos, view);
            let n = pack_key_exec(key);
            proof {
                lemma_pack_key(key);
            }
            match columns.get(&n) {
                Some(best) => {
                    let best = *best;
                    if is_better(pos, best.0, view) {
                        columns.insert(n, (pos, cell));
                    }
                },
                None => {
                    columns.insert(n, (pos, cell));
                },
            }
            proof {
                assert(cells@[i as int].0 == pos);
                assert(scan_state(sim.world, pose, slice_depth, cells@, i as int + 1, columns@)) by {
                    assert forall|k: (u16, u16)| #[trigger] columns@.contains_key(pack_key(k)) implies {
                        let e = columns@[pack_key(k)];
                        forall|j: int|
                            0 <= j < i + 1 && spec_visible_at_slice((#[trigger] cells@[j]).0, pose, slice_depth)
                                && spec_view_key(cells@[j].0, view) == k ==> !spec_is_better(cells@[j].0, e.0, view)
                    } by {
                        lemma_pack_key_injective(k, key);
                    }
                }
            }
        } else {
            proof {
                assert(cells@[i as int].0 == pos);
            }
        }
        i = i + 1;
    }
    proof {
        let w = sim.world;
        assert forall|k: (u16, u16)| #[trigger] columns@.contains_key(pack_key(k)) <==> exists|p: WorldPos|
            #[trigger] surface_candidate(w, pose, slice_depth, p) && spec_view_key(p, view) == k by {
            if columns@.contains_key(pack_key(k)) {
                let e = columns@[pack_key(k)];
                assert(surface_candidate(w, pose, slice_depth, e.0));
            }
            if exists|p: WorldPos| #[trigger] surface_candidate(w, pose, slice_depth, p) && spec_view_key(p, view) == k {
                let p = choose|p: WorldPos| #[trigger] surface_candidate(w, pose, slice_depth, p) && spec_view_key(p, view) == k;
                assert(p.spec_in_bounds() && !w.cell(p).spec_is_empty());
                let j = choose|j: int| 0 <= j < cells@.len() && cells@[j].0 == p;
                assert(spec_visible_at_slice(cells@[j].0, pose, slice_depth));
            }
        }
        assert forall|k: (u16, u16)| #[trigger] columns@.contains_key(pack_key(k)) implies is_surface_cell(w, pose, slice_depth, columns@[pack_key(k)].0) by {
            let e = columns@[pack_key(k)];
            assert forall|q: WorldPos|
                #[trigger] surface_candidate(w, pose, slice_depth, q) && spec_view_key(q, view) == spec_view_key(e.0, view) implies !spec_is_better(q, e.0, view) by {
                assert(q.spec_in_bounds() && !w.cell(q).spec_is_empty());
                let j = choose|j: int| 0 <= j < cells@.len() && cells@[j].0 == q;
                assert(spec_visible_at_slice(cells@[j].0, pose, slice_depth));
            }
        }
    }
    let r = SurfaceMap { columns };
    proof {
        assert forall|k: (u16, u16)| #[trigger] r@.contains_key(k) == r.columns@.contains_key(pack_key(k)) by {}
        assert forall|k: (u16, u16)| #[trigger] r@.contains_key(k) implies r@[k] == r.columns@[pack_key(k)] by {}
    }
    r
}

/// Entries in nondecreasing draw order for `pose`.
pub open spec fn draw_sorted(s: Seq<(WorldPos, Cell)>, pose: ViewPose) -> bool {
    forall|i: int, j: int|
        0 <= i <= j < s.len() ==> spec_depth_draw_order((#[trigger] s[i]).0, pose) <= spec_depth_draw_order(
            (#[trigger] s[j]).0,
            pose,
        )
}

/// Index at which an entry with draw key `key` goes after every entry of
/// `out` whose key is not larger.
fn upper_bound(out: &Vec<(WorldPos, Cell)>, pose: ViewPose, key: u16) -> (r: usize)
    requires
        draw_sorted(out@, pose),
    ensures
        r <= out@.len(),
        forall|j: int| 0 <= j < r ==> spec_depth_draw_order((#[trigger] out@[j]).0, pose) <= key,
        forall|j: int| r <= j < out@.len() ==> spec_depth_draw_order((#[trigger] out@[j]).0, pose) > key,
{
    let mut lo: usize = 0;
    let mut hi: usize = out.len();
    while lo < hi
        invariant
            lo <= hi <= out@.len(),
            draw_sorted(out@, pose),
            forall|j: int| 0 <= j < lo ==> spec_depth_draw_order((#[trigger] out@[j]).0, pose) <= key,
            forall|j: int| hi <= j < out@.len() ==> spec_depth_draw_order((#[trigger] out@[j]).0, pose) > key,
        decreases hi - lo,
    {
        let mid = lo + (hi - lo) / 2;
        if depth_draw_order(out[mid].0, pose) <= key {
            lo = mid + 1;
        } else {
            hi = mid;
        }
    }
    lo
}

/// Inserting `e` at its upper-bound position keeps the entries sorted and
/// distinct, and keeps every earlier entry (shifted past `at`).
proof fn lemma_sorted_insert(old: Seq<(WorldPos, Cell)>, at: int, e: (WorldPos, Cell), pose: ViewPose)
    requires
        draw_sorted(old, pose),
        0 <= at <= old.len(),
        forall|j: int| 0 <= j < at ==> spec_depth_draw_order((#[trigger] old[j]).0, pose) <= spec_depth_draw_order(e.0, pose),
        forall|j: int| at <= j < old.len() ==> spec_depth_draw_order((#[trigger] old[j]).0, pose) > spec_depth_draw_order(e.0, pose),
        forall|a: int, b: int| 0 <= a < b < old.len() ==> (#[trigger] old[a]).0 != (#[trigger] old[b]).0,
        forall|k: int| 0 <= k < old.len() ==> (#[trigger] old[k]).0 != e.0,
    ensures
        draw_sorted(old.insert(at, e), pose),
        forall|a: int, b: int| 0 <= a < b < old.len() + 1 ==> (#[trigger] old.insert(at, e)[a]).0 != (#[trigger] old.insert(at, e)[b]).0,
        old.insert(at, e).len() == old.len() + 1,
        old.insert(at, e)[at] == e,
        forall|k: int| 0 <= k < old.len() ==> old.insert(at, e)[if k < at { k } else { k + 1 }] == #[trigger] old[k],
        forall|k: int|
            0 <= k < old.len() + 1 ==> (#[trigger] old.insert(at, e)[k] == e || exists|m: int| 0 <= m < old.len() && old.insert(at, e)[k] == old[m]),
{
    let n = old.insert(at, e);
    assert forall|k: int| 0 <= k < old.len() + 1 implies (#[trigger] n[k] == e || exists|m: int| 0 <= m < old.len() && n[k] == old[m]) by {
        if k < at {
            assert(n[k] == old[k]);
        } else if k > at {
            assert(n[k] == old[k - 1]);
        }
    }
    assert forall|a: int, b: int| 0 <= a < b < old.len() + 1 implies (#[trigger] n[a]).0 != (#[trigger] n[b]).0 by {
        if a < at && b < at {
            assert(n[a] == old[a] && n[b] == old[b]);
        } else if a < at && b == at {
            assert(n[a] == old[a]);
        } else if a < at {
            assert(n[a] == old[a] && n[b] == old[b - 1]);
        } else if a == at {
            assert(n[b] == old[b - 1]);
        } else {
            assert(n[a] == old[a - 1] && n[b] == old[b - 1]);
        }
    }
    assert forall|a: int, b: int| 0 <= a <= b < n.len() implies spec_depth_draw_order((#[trigger] n[a]).0, pose)
        <= spec_depth_draw_order((#[trigger] n[b]).0, pose) by {
        if a < at && b < at {
            assert(n[a] == old[a] && n[b] == old[b]);
        } else if a < at && b == at {
            assert(n[a] == old[a]);
        } else if a < at {
            assert(n[a] == old[a] && n[b] == old[b - 1]);
        } else if a == at && b > at {
            assert(n[b] == old[b - 1]);
        } else if a > at {
            assert(n[a] == old[a - 1] && n[b] == old[b - 1]);
        }
    }
}

/// Rank of the entry of `cells` at `i`, or a bound above every rank past the end.
spec fn rank_at(cells: Seq<(WorldPos, Cell)>, i: int) -> int {
    if i < cells.len() {
        pos_rank(cells[i].0)
    } else {
        i64::MAX as int
    }
}

/// All non-empty cells visible at `slice_depth` (not just the outermost per
/// column), each once, sorted back to front by `depth_draw_order`.
pub fn visible_cells(sim: &Simulation, pose: ViewPose, slice_depth: u16) -> (r: Vec<(WorldPos, Cell)>)
    requires
        sim.wf(),
    ensures
        forall|i: int|
            0 <= i < r@.len() ==> {
                &&& surface_candidate(sim.world, pose, slice_depth, (#[trigger] r@[i]).0)
                &&& r@[i].1 == sim.world.cell(r@[i].0)
            },
        forall|p: WorldPos|
            #[trigger] surface_candidate(sim.world, pose, slice_depth, p) ==> exists|i: int| 0 <= i < r@.len() && r@[i].0 == p,
        forall|i: int, j: int| 0 <= i < j < r@.len() ==> (#[trigger] r@[i]).0 != (#[trigger] r@[j]).0,
        draw_sorted(r@, pose),
{
    let cells = sim.world.chunks.iter_non_empty();
    proof {
        assert forall|j: int| 0 <= j < cells@.len() implies pos_rank((#[trigger] cells@[j]).0) < i64::MAX by {
            let p = cells@[j].0;
            assert(p.spec_in_bounds());
            assert(p.spec_local_index() < 32768);
        }
    }
    let mut out: Vec<(WorldPos, Cell)> = Vec::new();
    let mut i: usize = 0;
    while i < cells.len()
        invariant
            i <= cells@.len(),
            forall|j: int|
                0 <= j < cells@.len() ==> {
                    &&& (#[trigger] cells@[j]).0.spec_in_bounds()
                    &&& cells@[j].1 == sim.world.cell(cells@[j].0)
                    &&& !cells@[j].1.spec_is_empty()
                    &&& pos_rank(cells@[j].0) < i64::MAX
                },
            forall|a: int, b: int| 0 <= a < b < cells@.len() ==> pos_rank((#[trigger] cells@[a]).0) < pos_rank((#[trigger] cells@[b]).0),
            forall|k: int|
                0 <= k < out@.len() ==> {
                    &&& surface_candidate(sim.world, pose, slice_depth, (#[trigger] out@[k]).0)
                    &&& out@[k].1 == sim.world.cell(out@[k].0)
                    &&& pos_rank(out@[k].0) < rank_at(cells@, i as int)
                },
            forall|j: int|
                0 <= j < i && spec_visible_at_slice((#[trigger] cells@[j]).0, pose, slice_depth) ==> exists|k: int|
                    0 <= k < out@.len() && out@[k].0 == cells@[j].0,
            forall|a: int, b: int| 0 <= a < b < out@.len() ==> (#[trigger] out@[a]).0 != (#[trigger] out@[b]).0,
            draw_sorted(out@, pose),
        decreases cells@.len() - i,
    {
        let (pos, cell) = cells[i];
        let ghost old_out = out@;
        proof {
            assert(cells@[i as int].0 == pos);
            if i + 1 < cells@.len() {
                assert(pos_rank(cells@[i as int].0) < pos_rank(cells@[i + 1].0));
            }
        }
        if !cell.is_empty() && is_cell_visible_at_slice(pos, pose, slice_depth) {
            let key = depth_draw_order(pos, pose);
            let at = upper_bound(&out, pose, key);
            proof {
                assert forall|k: int| 0 <= k < old_out.len() implies (#[trigger] old_out[k]).0 != pos by {}
                lemma_sorted_insert(old_out, at as int, (pos, cell), pose);
            }
            out.insert(at, (pos, cell));
            proof {
                assert forall|k: int| 0 <= k < out@.len() implies {
                    &&& surface_candidate(sim.world, pose, slice_depth, (#[trigger] out@[k]).0)
                    &&& out@[k].1 == sim.world.cell(out@[k].0)
                    &&& pos_rank(out@[k].0) < rank_at(cells@, i + 1)
                } by {
                    if out@[k] != (pos, cell) {
                        let m = choose|m: int| 0 <= m < old_out.len() && out@[k] == old_out[m];
                        assert(old_out[m] == old_out[m]);
                    }
                }
                assert forall|j: int| 0 <= j < i + 1 && spec_visible_at_slice((#[trigger] cells@[j]).0, pose, slice_depth) implies exists|k: int|
                    0 <= k < out@.len() && out@[k].0 == cells@[j].0 by {
                    if j == i {
                        assert(out@[at as int].0 == cells@[j].0);
                    } else {
                        let k = choose|k: int| 0 <= k < old_out.len() && old_out[k].0 == cells@[j].0;
                        assert(old_out[k] == old_out[k]);
                    }
                }
            }
        }
        i = i + 1;
    }
    proof {
        assert forall|p: WorldPos| #[trigger] surface_candidate(sim.world, pose, slice_depth, p) implies exists|k: int|
            0 <= k < out@.len() && out@[k].0 == p by {
            let j = choose|j: int| 0 <= j < cells@.len() && cells@[j].0 == p;
            assert(spec_visible_at_slice(cells@[j].0, pose, slice_depth));
        }
    }
    out
}

/// The coordinate of chunk `c` on the axis that `d` points along.
pub open spec fn chunk_axis_coord(c: ChunkCoord, d: GridDir) -> int {
    if d.x != 0 {
        c.x as int
    } else if d.y != 0 {
        c.y as int
    } else {
        c.z as int
    }
}

/// A cell's depth for a pose is its coordinate on the camera's viewing axis.
pub proof fn lemma_cell_depth_on_view_axis(pos: WorldPos, pose: ViewPose)
    requires
        pose.wf(),
    ensures
        spec_cell_depth(pos, pose.spec_face()) == axis_coord(pos, pose.view_dir),
{
}

/// A cell is shown at a slice exactly when it does not lie between the
/// slice and the camera: along the viewing direction it is at or before the
/// slice plane.
pub proof fn lemma_visible_means_not_in_front(pos: WorldPos, pose: ViewPose, slice_depth: u16)
    requires
        pose.wf(),
    ensures
        spec_visible_at_slice(pos, pose, slice_depth)
            <==> axis_sign(pose.view_dir) * (axis_coord(pos, pose.view_dir) - slice_depth) <= 0,
{
    let d = axis_coord(pos, pose.view_dir) - slice_depth;
    if axis_sign(pose.view_dir) == 1 {
        assert(axis_sign(pose.view_dir) * d == d);
    } else {
        assert(axis_sign(pose.view_dir) == -1);
        assert(axis_sign(pose.view_dir) * d == -d);
    }
}

/// Cells are drawn back to front: one cell's draw key is below another's
/// exactly when it lies farther from the camera along the viewing axis.
pub proof fn lemma_draw_order_back_to_front(p: WorldPos, q: WorldPos, pose: ViewPose)
    requires
        pose.wf(),
    ensures
        spec_depth_draw_order(p, pose) < spec_depth_draw_order(q, pose)
            <==> axis_sign(pose.view_dir) * axis_coord(p, pose.view_dir) < axis_sign(pose.view_dir) * axis_coord(q, pose.view_dir),
{
    let a = axis_coord(p, pose.view_dir);
    let b = axis_coord(q, pose.view_dir);
    lemma_cell_depth_on_view_axis(p, pose);
    lemma_cell_depth_on_view_axis(q, pose);
    if axis_sign(pose.view_dir) == 1 {
        assert(axis_sign(pose.view_dir) * a == a && axis_sign(pose.view_dir) * b == b);
    } else {
        assert(axis_sign(pose.view_dir) == -1);
        assert(axis_sign(pose.view_dir) * a == -a && axis_sign(pose.view_dir) * b == -b);
    }
}

/// The chunks rebuilt for an edit at `pos` form the column through its
/// chunk along the camera's viewing axis: every one shares the chunk's
/// coordinates on the two screen axes, and the i-th lies at i on the
/// viewing axis, so every chunk of the column is listed.
pub proof fn lemma_affected_chunks_column(pos: WorldPos, pose: ViewPose)
    requires
        pose.wf(),
    ensures
        ({
            let r = spec_affected_chunks(pos, pose.spec_face());
            let c = pos.spec_chunk_coord();
            &&& r.len() == CHUNKS_PER_AXIS
            &&& forall|i: int|
                0 <= i < r.len() ==> {
                    &&& chunk_axis_coord(#[trigger] r[i], pose.u_axis) == chunk_axis_coord(c, pose.u_axis)
                    &&& chunk_axis_coord(r[i], pose.v_axis) == chunk_axis_coord(c, pose.v_axis)
                    &&& chunk_axis_coord(r[i], pose.view_dir) == i
                }
        }),
{
}

} // verus!
