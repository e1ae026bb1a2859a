//! Grid picking on a view face: from view UV and depth back to a world cell.
use vstd::prelude::*;

use crate::constants::WORLD_SIZE;
use crate::coord::WorldPos;
use crate::sim::Simulation;
use crate::surface::{is_surface_cell, spec_view_key, surface_candidate, visible_surface};
use crate::view::{GridDir, OrthoView, ViewPose};

verus! {

/// World coordinate reached by moving `val` cells along a face axis whose
/// world component is `sign`: `val` itself along a positive axis, mirrored
/// about the world centre (and floored at 0) along a negative one.
pub open spec fn spec_place(sign: i8, val: u16) -> u16 {
    if sign > 0 {
        val
    } else if val <= WORLD_SIZE - 1 {
        (WORLD_SIZE - 1 - val) as u16
    } else {
        0
    }
}

/// World component picked by the face axes `(u, v, depth)` whose components
/// along that world axis are `cu`, `cv`, `cd` (exactly one is non-zero).
pub open spec fn spec_uv_component(cu: i8, cv: i8, cd: i8, u: u16, v: u16, depth: u16) -> u16 {
    if cu != 0 {
        spec_place(cu, u)
    } else if cv != 0 {
        spec_place(cv, v)
    } else {
        spec_place(cd, depth)
    }
}

/// The cell at view coordinates `(u, v)` on the slice `depth` of `pose`.
pub open spec fn spec_uv_depth_to_cell(pose: ViewPose, u: u16, v: u16, depth: u16) -> WorldPos {
    let d = pose.spec_face().spec_depth_world_axis();
    WorldPos {
        x: spec_uv_component(pose.u_axis.x, pose.v_axis.x, d.x, u, v, depth),
        y: spec_uv_component(pose.u_axis.y, pose.v_axis.y, d.y, u, v, depth),
        z: spec_uv_component(pose.u_axis.z, pose.v_axis.z, d.z, u, v, depth),
    }
}

/// View coordinate of `pos` along the cardinal face axis `a`: the world
/// coordinate on `a`'s axis, mirrored when `a` points the negative way.
pub open spec fn spec_axis_coord(a: GridDir, pos: WorldPos) -> u16 {
    if a.x != 0 {
        spec_place(a.x, pos.x)
    } else if a.y != 0 {
        spec_place(a.y, pos.y)
    } else {
        spec_place(a.z, pos.z)
    }
}

/// Projecting an in-world cell onto a face (its coordinates along the
/// pose's `u` and `v` axes and its slice depth) and building the cell back
/// from those three numbers gives the cell again.
pub proof fn lemma_uv_depth_round_trip(pose: ViewPose, pos: WorldPos)
    requires
        pose.wf(),
        pos.spec_in_bounds(),
    ensures
        spec_uv_depth_to_cell(
            pose,
            spec_axis_coord(pose.u_axis, pos),
            spec_axis_coord(pose.v_axis, pos),
            pose.spec_face().spec_slice_depth(pos),
        ) == pos,
{
    lemma_depth_axis_along_view(pose.view_dir);
}

/// For a cardinal `view_dir`, the face's depth axis is `view_dir` or its
/// opposite.
proof fn lemma_depth_axis_along_view(view_dir: GridDir)
    requires
        view_dir.is_cardinal(),
    ensures
        ({
            let d = OrthoView::spec_from_view_dir(view_dir).spec_depth_world_axis();
            d == view_dir || d == view_dir.spec_neg()
        }),
{
}

fn place(sign: i8, val: u16) -> (r: u16)
    ensures
        r == spec_place(sign, val),
{
    if sign > 0 {
        val
    } else if val <= (WORLD_SIZE - 1) as u16 {
        (WORLD_SIZE - 1) as u16 - val
    } else {
        0
    }
}

fn uv_component(cu: i8, cv: i8, cd: i8, u: u16, v: u16, depth: u16) -> (r: u16)
    ensures
        r == spec_uv_component(cu, cv, cd, u, v, depth),
{
    if cu != 0 {
        place(cu, u)
    } else if cv != 0 {
        place(cv, v)
    } else {
        place(cd, depth)
    }
}

/// Build a world cell from view UV and depth slice along the face normal.
pub fn uv_depth_to_cell(pose: ViewPose, u: u16, v: u16, depth: u16) -> (r: WorldPos)
    requires
        pose.wf(),
    ensures
        r == spec_uv_depth_to_cell(pose, u, v, depth),
{
    let d = pose.face().depth_world_axis();
    WorldPos::new(
        uv_component(pose.u_axis.x, pose.v_axis.x, d.x, u, v, depth),
        uv_component(pose.u_axis.y, pose.v_axis.y, d.y, u, v, depth),
        uv_component(pose.u_axis.z, pose.v_axis.z, d.z, u, v, depth),
    )
}

/// Resolve the visible surface cell at view UV, if the column is non-empty.
pub fn pick_surface_at_uv(sim: &Simulation, pose: ViewPose, u: u16, v: u16, slice_depth: u16) -> (r: Option<WorldPos>)
    requires
        sim.wf(),
    ensures
        r is Some <==> exists|p: WorldPos|
            #[trigger] surface_candidate(sim.world, pose, slice_depth, p) && spec_view_key(p, pose.spec_face()) == (u, v),
        r matches Some(p) ==> spec_view_key(p, pose.spec_face()) == (u, v) && is_surface_cell(sim.world, pose, slice_depth, p),
{
    let surface = visible_surface(sim, pose, slice_depth);
    match surface.get((u, v)) {
        Some(e) => Some(e.0),
        None => None,
    }
}

} // verus!
