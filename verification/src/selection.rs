//! The persistent selected cell and orbit anchor: navigation focal points.
use vstd::prelude::*;

use crate::constants::WORLD_SIZE;
use crate::coord::WorldPos;
use crate::sim::Simulation;
use crate::view::ViewPose;
use crate::world::World;

verus! {

/// World centre, the selection when no seeded cell exists.
pub open spec fn spec_fallback_selection() -> WorldPos {
    WorldPos { x: 250, y: 250, z: 250 }
}

/// World centre, the selection when no seeded cell exists.
pub fn fallback_selection() -> (r: WorldPos)
    ensures
        r == spec_fallback_selection(),
{
    WorldPos::new(250, 250, 250)
}

/// Always-on UI selection anchor.
#[derive(Clone, Copy, Debug, PartialEq, Eq, Structural)]
pub struct SelectedCell {
    pub pos: WorldPos,
}

/// Camera look-at, rotation pivot, and zoom centre.
#[derive(Clone, Copy, Debug, PartialEq, Eq, Structural)]
pub struct OrbitAnchor {
    pub pos: WorldPos,
}

impl Default for SelectedCell {
    fn default() -> (r: Self)
        ensures
            r.pos == spec_fallback_selection(),
    {
        SelectedCell { pos: fallback_selection() }
    }
}

impl Default for OrbitAnchor {
    fn default() -> (r: Self)
        ensures
            r.pos == spec_fallback_selection(),
    {
        OrbitAnchor { pos: fallback_selection() }
    }
}

/// `pos` with each coordinate clamped to the last world cell.
pub open spec fn spec_clamp_pos(pos: WorldPos) -> WorldPos {
    let max = (WORLD_SIZE - 1) as u16;
    WorldPos {
        x: if pos.x <= max { pos.x } else { max },
        y: if pos.y <= max { pos.y } else { max },
        z: if pos.z <= max { pos.z } else { max },
    }
}

pub fn clamp_pos(pos: WorldPos) -> (r: WorldPos)
    ensures
        r == spec_clamp_pos(pos),
        r.spec_in_bounds(),
        pos.spec_in_bounds() ==> r == pos,
{
    let max = (WORLD_SIZE - 1) as u16;
    WorldPos::new(
        if pos.x <= max { pos.x } else { max },
        if pos.y <= max { pos.y } else { max },
        if pos.z <= max { pos.z } else { max },
    )
}

/// Update selection, clamping to grid bounds.
pub fn set_selection(cell: &mut SelectedCell, pos: WorldPos)
    ensures
        final(cell).pos == spec_clamp_pos(pos),
{
    cell.pos = clamp_pos(pos);
}

/// Update orbit anchor, clamping to grid bounds.
pub fn set_orbit_anchor(anchor: &mut OrbitAnchor, pos: WorldPos)
    ensures
        final(anchor).pos == spec_clamp_pos(pos),
{
    anchor.pos = clamp_pos(pos);
}

/// Snap the orbit anchor to the selected cell (recenter view).
pub fn recenter_on_selection(anchor: &mut OrbitAnchor, selection: &SelectedCell)
    ensures
        final(anchor).pos == selection.pos,
{
    anchor.pos = selection.pos;
}

/// Depth of the selected cell along the face's depth axis: the active slice.
pub fn slice_depth(pose: ViewPose, selection: &SelectedCell) -> (r: u16)
    ensures
        r == pose.spec_face().spec_slice_depth(selection.pos),
{
    pose.slice_depth(selection.pos)
}

/// Weight of a candidate in the deterministic pick.
pub open spec fn selection_weight(p: WorldPos) -> int {
    p.x + p.y * 17 + p.z * 289
}

/// Sum of the weights of `s`.
pub open spec fn weight_sum(s: Seq<WorldPos>) -> int
    decreases s.len(),
{
    if s.len() == 0 {
        0
    } else {
        weight_sum(s.drop_last()) + selection_weight(s.last())
    }
}

/// The candidates whose cell in `world` is non-empty, in order.
pub open spec fn nonempty_candidates(candidates: Seq<WorldPos>, world: World) -> Seq<WorldPos> {
    candidates.filter(|p: WorldPos| !world.cell(p).spec_is_empty())
}

/// The pick among `candidates`: the non-empty one at the weight sum modulo
/// their count, or the world centre when none is non-empty.
pub open spec fn spec_random_selection(candidates: Seq<WorldPos>, world: World) -> WorldPos {
    let ne = nonempty_candidates(candidates, world);
    if ne.len() == 0 {
        spec_fallback_selection()
    } else {
        ne[weight_sum(ne) % (ne.len() as int)]
    }
}

/// The pick is one of the candidates and holds a non-empty cell whenever
/// some candidate does; otherwise it is the world centre.
pub proof fn lemma_random_selection_nonempty(candidates: Seq<WorldPos>, world: World)
    ensures
        (exists|i: int| 0 <= i < candidates.len() && !world.cell(#[trigger] candidates[i]).spec_is_empty()) ==> {
            let r = spec_random_selection(candidates, world);
            candidates.contains(r) && !world.cell(r).spec_is_empty()
        },
        (forall|i: int| 0 <= i < candidates.len() ==> world.cell(#[trigger] candidates[i]).spec_is_empty())
            ==> spec_random_selection(candidates, world) == spec_fallback_selection(),
{
    let pred = |p: WorldPos| !world.cell(p).spec_is_empty();
    let ne = nonempty_candidates(candidates, world);
    if exists|i: int| 0 <= i < candidates.len() && !world.cell(#[trigger] candidates[i]).spec_is_empty() {
        let i = choose|i: int| 0 <= i < candidates.len() && !world.cell(#[trigger] candidates[i]).spec_is_empty();
        candidates.lemma_filter_contains(pred, i);
        assert(ne.len() > 0);
        let k = weight_sum(ne) % (ne.len() as int);
        candidates.lemma_filter_pred(pred, k);
        assert(ne.contains(ne[k]));
        candidates.lemma_filter_contains_rev(pred, ne[k]);
    } else {
        if ne.len() > 0 {
            candidates.lemma_filter_pred(pred, 0);
            assert(ne.contains(ne[0]));
            candidates.lemma_filter_contains_rev(pred, ne[0]);
        }
    }
}

proof fn lemma_weight_sum_prefix(s: Seq<WorldPos>, i: int)
    requires
        0 <= i <= s.len(),
    ensures
        0 <= weight_sum(s.take(i)) <= weight_sum(s),
    decreases s.len(),
{
    if s.len() > 0 {
        if i < s.len() {
            assert(s.drop_last().take(i) =~= s.take(i));
            lemma_weight_sum_prefix(s.drop_last(), i);
        } else {
            assert(s.take(i) =~= s);
            lemma_weight_sum_prefix(s.drop_last(), i - 1);
        }
    }
}

/// The non-empty candidates, in order.
fn collect_nonempty(candidates: &[WorldPos], sim: &Simulation) -> (r: Vec<WorldPos>)
    requires
        sim.wf(),
    ensures
        r@ == nonempty_candidates(candidates@, sim.world),
{
    let ghost pred = |p: WorldPos| !sim.world.cell(p).spec_is_empty();
    let mut out: Vec<WorldPos> = Vec::new();
    let mut i: usize = 0;
    while i < candidates.len()
        invariant
            sim.wf(),
            i <= candidates@.len(),
            pred == (|p: WorldPos| !sim.world.cell(p).spec_is_empty()),
            out@ == candidates@.take(i as int).filter(pred),
        decreases candidates@.len() - i,
    {
        let p = candidates[i];
        proof {
            assert(candidates@.take(i as int + 1) =~= candidates@.take(i as int).push(p));
            candidates@.take(i as int).lemma_filter_push(p, pred);
        }
        if !sim.world.get(p).is_empty() {
            out.push(p);
        }
        i = i + 1;
    }
    assert(candidates@.take(candidates@.len() as int) =~= candidates@);
    out
}

/// Whether the weights of the non-empty candidates sum within `u32`, the
/// range `random_selection` adds them in.
pub fn selection_weights_fit(candidates: &[WorldPos], sim: &Simulation) -> (r: bool)
    requires
        sim.wf(),
    ensures
        r == (weight_sum(nonempty_candidates(candidates@, sim.world)) <= u32::MAX),
{
    let ne = collect_nonempty(candidates, sim);
    let mut sum: u64 = 0;
    let mut i: usize = 0;
    while i < ne.len()
        invariant
            i <= ne@.len(),
            ne@ == nonempty_candidates(candidates@, sim.world),
            sum == weight_sum(ne@.take(i as int)),
            sum <= u32::MAX,
        decreases ne@.len() - i,
    {
        let p = ne[i];
        proof {
            assert(ne@.take(i as int + 1).drop_last() =~= ne@.take(i as int));
        }
        let w = p.x as u64 + p.y as u64 * 17 + p.z as u64 * 289;
        proof {
            assert(ne@.take(i as int + 1).last() == p);
            assert(weight_sum(ne@.take(i as int + 1)) == sum + w);
        }
        if sum + w > u32::MAX as u64 {
            proof {
                lemma_weight_sum_prefix(ne@, i as int + 1);
            }
            return false;
        }
        sum = sum + w;
        i = i + 1;
    }
    assert(ne@.take(ne@.len() as int) =~= ne@);
    true
}

/// Pick a non-empty cell from `candidates` deterministically, or the world
/// centre.
pub fn random_selection(candidates: &[WorldPos], sim: &Simulation) -> (r: WorldPos)
    requires
        sim.wf(),
        weight_sum(nonempty_candidates(candidates@, sim.world)) <= u32::MAX,
    ensures
        r == spec_random_selection(candidates@, sim.world),
{
    let ne = collect_nonempty(candidates, sim);
    if ne.len() == 0 {
        return fallback_selection();
    }
    let mut sum: u32 = 0;
    let mut i: usize = 0;
    while i < ne.len()
        invariant
            i <= ne@.len(),
            sum == weight_sum(ne@.take(i as int)),
            weight_sum(ne@) <= u32::MAX,
        decreases ne@.len() - i,
    {
        let p = ne[i];
        proof {
            assert(ne@.take(i as int + 1).drop_last() =~= ne@.take(i as int));
            lemma_weight_sum_prefix(ne@, i as int + 1);
        }
        let w = p.x as u32 + p.y as u32 * 17 + p.z as u32 * 289;
        sum = sum + w;
        i = i + 1;
    }
    assert(ne@.take(ne@.len() as int) =~= ne@);
    let idx = (sum as usize) % ne.len();
    ne[idx]
}

} // verus!
