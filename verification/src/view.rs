//! Orthographic view faces, cardinal camera poses, and view rotation.
use vstd::prelude::*;

use crate::constants::WORLD_SIZE;
use crate::coord::WorldPos;

verus! {

/// A grid direction: an integer vector with components in -1..=1. Camera
/// poses use the six cardinal unit directions.
#[derive(Clone, Copy, Debug, PartialEq, Eq, Hash, Structural)]
pub struct GridDir {
    pub x: i8,
    pub y: i8,
    pub z: i8,
}

/// Screen-relative direction for view rotation.
#[derive(Clone, Copy, Debug, PartialEq, Eq, Structural)]
pub enum ScreenDir {
    Up,
    Down,
    Left,
    Right,
}

/// Axis perpendicular to an orthographic face (depth into the screen).
#[derive(Clone, Copy, Debug, PartialEq, Eq, Structural)]
pub enum DepthAxis {
    X,
    Y,
    Z,
}

/// Active orthographic face (six axis-aligned views).
#[derive(Clone, Copy, Debug, PartialEq, Eq, Hash, Structural)]
pub enum OrthoView {
    Top,
    Bottom,
    Front,
    Back,
    Left,
    Right,
}

/// Full camera orientation around a look-at target (cardinal axes only).
#[derive(Clone, Copy, Debug, PartialEq, Eq, Structural)]
pub struct ViewPose {
    /// Unit direction from target toward camera.
    pub view_dir: GridDir,
    /// Unit camera-up, orthogonal to `view_dir`.
    pub up: GridDir,
    /// World axis along which UV `u` increases on this face.
    pub u_axis: GridDir,
    /// World axis along which UV `v` increases on this face.
    pub v_axis: GridDir,
}

pub open spec fn dir(x: i8, y: i8, z: i8) -> GridDir {
    GridDir { x, y, z }
}

/// Product of two values in -1..=1.
pub open spec fn unit_mul(a: int, b: int) -> int {
    if a == 0 || b == 0 {
        0
    } else if a == b {
        1
    } else {
        -1
    }
}

impl GridDir {
    /// One of the six unit directions.
    pub open spec fn is_cardinal(self) -> bool {
        ||| self == dir(1, 0, 0)
        ||| self == dir(-1i8, 0, 0)
        ||| self == dir(0, 1, 0)
        ||| self == dir(0, -1i8, 0)
        ||| self == dir(0, 0, 1)
        ||| self == dir(0, 0, -1i8)
    }

    /// Every component lies in -1..=1.
    pub open spec fn is_unit_box(self) -> bool {
        -1 <= self.x <= 1 && -1 <= self.y <= 1 && -1 <= self.z <= 1
    }

    /// Dot product (for directions in the unit box).
    pub open spec fn spec_dot(self, o: GridDir) -> int {
        unit_mul(self.x as int, o.x as int) + unit_mul(self.y as int, o.y as int) + unit_mul(self.z as int, o.z as int)
    }

    /// Cross product (for directions in the unit box).
    pub open spec fn spec_cross(self, o: GridDir) -> GridDir {
        GridDir {
            x: (unit_mul(self.y as int, o.z as int) - unit_mul(self.z as int, o.y as int)) as i8,
            y: (unit_mul(self.z as int, o.x as int) - unit_mul(self.x as int, o.z as int)) as i8,
            z: (unit_mul(self.x as int, o.y as int) - unit_mul(self.y as int, o.x as int)) as i8,
        }
    }

    pub open spec fn spec_neg(self) -> GridDir {
        GridDir { x: (-self.x) as i8, y: (-self.y) as i8, z: (-self.z) as i8 }
    }

    /// `v` turned a quarter turn about cardinal `axis` (`sign` +1 is
    /// counter-clockwise seen from the tip of `axis`, -1 clockwise).
    pub open spec fn spec_quarter_turn(v: GridDir, axis: GridDir, sign: int) -> GridDir {
        if axis.spec_dot(v) != 0 {
            v
        } else if sign > 0 {
            axis.spec_cross(v)
        } else {
            axis.spec_cross(v).spec_neg()
        }
    }

    pub fn new(x: i8, y: i8, z: i8) -> (r: Self)
        ensures
            r == (GridDir { x, y, z }),
    {
        GridDir { x, y, z }
    }

    pub fn dot(self, o: GridDir) -> (r: i32)
        requires
            self.is_unit_box(),
            o.is_unit_box(),
        ensures
            r == self.spec_dot(o),
    {
        mul_unit(self.x, o.x) as i32 + mul_unit(self.y, o.y) as i32 + mul_unit(self.z, o.z) as i32
    }

    pub fn cross(self, o: GridDir) -> (r: GridDir)
        requires
            self.is_cardinal(),
            o.is_cardinal(),
        ensures
            r == self.spec_cross(o),
            r.is_unit_box(),
            self.spec_dot(o) == 0 ==> r.is_cardinal(),
    {
        proof {
            lemma_cardinal_products(self, o);
        }
        GridDir {
            x: mul_unit(self.y, o.z) - mul_unit(self.z, o.y),
            y: mul_unit(self.z, o.x) - mul_unit(self.x, o.z),
            z: mul_unit(self.x, o.y) - mul_unit(self.y, o.x),
        }
    }

    pub fn neg(self) -> (r: GridDir)
        requires
            self.is_unit_box(),
        ensures
            r == self.spec_neg(),
            self.is_cardinal() ==> r.is_cardinal(),
    {
        GridDir { x: -self.x, y: -self.y, z: -self.z }
    }
}

/// `a * b` for values in -1..=1.
fn mul_unit(a: i8, b: i8) -> (r: i8)
    requires
        -1 <= a <= 1,
        -1 <= b <= 1,
    ensures
        r == unit_mul(a as int, b as int),
        -1 <= r <= 1,
{
    if a == 0 || b == 0 {
        0
    } else if a == b {
        1
    } else {
        -1
    }
}

/// Products of cardinal directions: dot products lie in -1..=1, and the
/// cross product of orthogonal cardinals is a cardinal orthogonal to both.
proof fn lemma_cardinal_products(a: GridDir, b: GridDir)
    requires
        a.is_cardinal(),
        b.is_cardinal(),
    ensures
        -1 <= a.spec_dot(b) <= 1,
        a.spec_cross(b).is_unit_box(),
        a.spec_dot(b) == 0 ==> a.spec_cross(b).is_cardinal(),
        a.spec_cross(b).spec_dot(a) == 0,
        a.spec_cross(b).spec_dot(b) == 0,
        a.spec_dot(b) != 0 ==> a.spec_cross(b) == dir(0, 0, 0),
        a.spec_dot(b) != 0 ==> (a == b || a == b.spec_neg()),
        a.spec_dot(a) == 1,
        a.spec_neg().is_cardinal(),
        a.spec_neg().spec_neg() == a,
{
}

/// Quarter turn of cardinal `v` about cardinal `axis`.
fn quarter_turn(v: GridDir, axis: GridDir, sign: i8) -> (r: GridDir)
    requires
        v.is_cardinal(),
        axis.is_cardinal(),
        sign == 1 || sign == -1,
    ensures
        r == GridDir::spec_quarter_turn(v, axis, sign as int),
        r.is_cardinal(),
{
    if axis.dot(v) != 0 {
        v
    } else if sign > 0 {
        axis.cross(v)
    } else {
        axis.cross(v).neg()
    }
}

impl ViewPose {
    /// The four axes are cardinal, and `u_axis`, `v_axis` span the face
    /// seen along `view_dir`, with `up` in that face.
    pub open spec fn wf(self) -> bool {
        &&& self.view_dir.is_cardinal()
        &&& self.up.is_cardinal()
        &&& self.u_axis.is_cardinal()
        &&& self.v_axis.is_cardinal()
        &&& self.view_dir.spec_dot(self.up) == 0
        &&& self.view_dir.spec_dot(self.u_axis) == 0
        &&& self.view_dir.spec_dot(self.v_axis) == 0
        &&& self.u_axis.spec_dot(self.v_axis) == 0
    }

    pub open spec fn spec_top_default() -> ViewPose {
        ViewPose { view_dir: dir(0, 1, 0), up: dir(0, 0, -1i8), u_axis: dir(1, 0, 0), v_axis: dir(0, 0, 1) }
    }

    pub open spec fn spec_screen_right(self) -> GridDir {
        self.up.spec_cross(self.view_dir)
    }

    pub open spec fn spec_face(self) -> OrthoView {
        OrthoView::spec_from_view_dir(self.view_dir)
    }

    /// The camera sits on the positive side of the face's depth axis.
    pub open spec fn spec_slice_uses_lte(self) -> bool {
        self.spec_face().spec_depth_component(self.view_dir) > 0
    }

    /// Axis of the quarter turn toward `d`: screen-right for vertical
    /// turns, camera-up for horizontal ones.
    pub open spec fn spec_rotation_axis(self, d: ScreenDir) -> GridDir {
        match d {
            ScreenDir::Up | ScreenDir::Down => self.spec_screen_right(),
            ScreenDir::Left | ScreenDir::Right => self.up,
        }
    }

    /// The pose after a quarter turn toward `d`.
    pub open spec fn spec_rotate(self, d: ScreenDir) -> ViewPose {
        let axis = self.spec_rotation_axis(d);
        let sign = rotation_sign(d);
        ViewPose {
            view_dir: GridDir::spec_quarter_turn(self.view_dir, axis, sign),
            up: GridDir::spec_quarter_turn(self.up, axis, sign),
            u_axis: GridDir::spec_quarter_turn(self.u_axis, axis, sign),
            v_axis: GridDir::spec_quarter_turn(self.v_axis, axis, sign),
        }
    }

    /// One-cell step along screen direction `d`.
    pub open spec fn spec_screen_delta(self, d: ScreenDir) -> (i16, i16, i16) {
        let v = match d {
            ScreenDir::Up => self.up,
            ScreenDir::Down => self.up.spec_neg(),
            ScreenDir::Left => self.spec_screen_right().spec_neg(),
            ScreenDir::Right => self.spec_screen_right(),
        };
        (v.x as i16, v.y as i16, v.z as i16)
    }

    pub fn top_default() -> (r: Self)
        ensures
            r == Self::spec_top_default(),
            r.wf(),
    {
        ViewPose {
            view_dir: GridDir::new(0, 1, 0),
            up: GridDir::new(0, 0, -1),
            u_axis: GridDir::new(1, 0, 0),
            v_axis: GridDir::new(0, 0, 1),
        }
    }

    pub fn face(&self) -> (r: OrthoView)
        ensures
            r == self.spec_face(),
    {
        OrthoView::from_view_dir(self.view_dir)
    }

    pub fn screen_right(&self) -> (r: GridDir)
        requires
            self.wf(),
        ensures
            r == self.spec_screen_right(),
            r.is_cardinal(),
            r.spec_dot(self.view_dir) == 0,
            r.spec_dot(self.up) == 0,
    {
        proof {
            lemma_cardinal_products(self.up, self.view_dir);
        }
        self.up.cross(self.view_dir)
    }

    pub fn slice_uses_lte(self) -> (r: bool)
        ensures
            r == self.spec_slice_uses_lte(),
            self.view_dir.is_cardinal() ==> r == self.spec_face().spec_slice_uses_lte(),
    {
        self.face().slice_uses_lte_for_dir(self.view_dir)
    }

    pub fn slice_depth(self, pos: WorldPos) -> (r: u16)
        ensures
            r == self.spec_face().spec_slice_depth(pos),
    {
        self.face().slice_depth(pos)
    }

    pub fn nudge_depth(self, pos: WorldPos, delta: i16) -> (r: WorldPos)
        ensures
            r == self.spec_face().spec_nudge_depth(pos, delta as int),
    {
        self.face().nudge_depth(pos, delta)
    }

    /// Sign for stepping one cell forward into the scene (scroll up / `]`).
    pub fn depth_step_forward_sign(self) -> (r: i16)
        ensures
            r == (if self.spec_slice_uses_lte() { -1int } else { 1int }),
    {
        if self.slice_uses_lte() {
            -1
        } else {
            1
        }
    }

    /// Map a forward/backward step count to the depth-axis delta for `nudge_depth`.
    pub fn depth_step_delta(self, forward_steps: i16) -> (r: i16)
        requires
            self.spec_slice_uses_lte() ==> forward_steps > i16::MIN,
        ensures
            r == forward_steps * (if self.spec_slice_uses_lte() { -1int } else { 1int }),
    {
        forward_steps * self.depth_step_forward_sign()
    }

    /// Move `pos` one cell along screen direction `dir`, clamped to the world.
    pub fn nudge_screen(self, pos: WorldPos, dir: ScreenDir) -> (r: WorldPos)
        requires
            self.wf(),
        ensures
            r == (WorldPos {
                x: clamp_axis(pos.x + self.spec_screen_delta(dir).0),
                y: clamp_axis(pos.y + self.spec_screen_delta(dir).1),
                z: clamp_axis(pos.z + self.spec_screen_delta(dir).2),
            }),
            r.spec_in_bounds(),
    {
        let (dx, dy, dz) = self.screen_delta(dir);
        WorldPos::new(
            clamp_coord(pos.x as i32 + dx as i32),
            clamp_coord(pos.y as i32 + dy as i32),
            clamp_coord(pos.z as i32 + dz as i32),
        )
    }

    pub fn screen_delta(self, dir: ScreenDir) -> (r: (i16, i16, i16))
        requires
            self.wf(),
        ensures
            r == self.spec_screen_delta(dir),
            -1 <= r.0 <= 1,
            -1 <= r.1 <= 1,
            -1 <= r.2 <= 1,
    {
        let v = match dir {
            ScreenDir::Up => self.up,
            ScreenDir::Down => self.up.neg(),
            ScreenDir::Left => self.screen_right().neg(),
            ScreenDir::Right => self.screen_right(),
        };
        (v.x as i16, v.y as i16, v.z as i16)
    }

    /// Orbit a quarter turn toward `dir` about the screen axis.
    pub fn rotate(&mut self, dir: ScreenDir)
        requires
            old(self).wf(),
        ensures
            *final(self) == old(self).spec_rotate(dir),
            final(self).wf(),
    {
        let (axis, sign): (GridDir, i8) = match dir {
            ScreenDir::Up => (self.screen_right(), -1),
            ScreenDir::Down => (self.screen_right(), 1),
            ScreenDir::Left => (self.up, -1),
            ScreenDir::Right => (self.up, 1),
        };
        let pose = *self;
        proof {
            lemma_quarter_turn_preserves(pose, axis, sign as int);
        }
        self.view_dir = quarter_turn(pose.view_dir, axis, sign);
        self.up = quarter_turn(pose.up, axis, sign);
        self.u_axis = quarter_turn(pose.u_axis, axis, sign);
        self.v_axis = quarter_turn(pose.v_axis, axis, sign);
    }

    pub fn camera_up(self) -> (r: GridDir)
        ensures
            r == self.up,
    {
        self.up
    }
}

/// Turning sense of the quarter turn toward `d`.
pub open spec fn rotation_sign(d: ScreenDir) -> int {
    match d {
        ScreenDir::Up | ScreenDir::Left => -1,
        ScreenDir::Down | ScreenDir::Right => 1,
    }
}

/// The screen direction opposite to `d`.
pub open spec fn opposite(d: ScreenDir) -> ScreenDir {
    match d {
        ScreenDir::Up => ScreenDir::Down,
        ScreenDir::Down => ScreenDir::Up,
        ScreenDir::Left => ScreenDir::Right,
        ScreenDir::Right => ScreenDir::Left,
    }
}

/// Quarter turns of a cardinal about a cardinal axis: the opposite turn
/// undoes one, and four in the same sense come back to the start.
proof fn lemma_quarter_turn_cycle(v: GridDir, axis: GridDir, sign: int)
    requires
        v.is_cardinal(),
        axis.is_cardinal(),
        sign == 1 || sign == -1,
    ensures
        GridDir::spec_quarter_turn(GridDir::spec_quarter_turn(v, axis, sign), axis, -sign) == v,
        GridDir::spec_quarter_turn(
            GridDir::spec_quarter_turn(
                GridDir::spec_quarter_turn(GridDir::spec_quarter_turn(v, axis, sign), axis, sign),
                axis,
                sign,
            ),
            axis,
            sign,
        ) == v,
{
}

/// A turn keeps its own axis: the same direction (or its opposite) turns
/// about the same axis again.
proof fn lemma_rotation_axis_kept(pose: ViewPose, d: ScreenDir)
    requires
        pose.wf(),
    ensures
        pose.spec_rotate(d).spec_rotation_axis(d) == pose.spec_rotation_axis(d),
        pose.spec_rotate(d).spec_rotation_axis(opposite(d)) == pose.spec_rotation_axis(d),
{
}

/// Turning the view toward a screen direction and then back toward the
/// opposite one restores the pose.
pub proof fn lemma_rotate_then_back(pose: ViewPose, d: ScreenDir)
    requires
        pose.wf(),
    ensures
        pose.spec_rotate(d).spec_rotate(opposite(d)) == pose,
{
    let axis = pose.spec_rotation_axis(d);
    let sign = rotation_sign(d);
    lemma_cardinal_products(pose.up, pose.view_dir);
    lemma_rotation_axis_kept(pose, d);
    lemma_quarter_turn_cycle(pose.view_dir, axis, sign);
    lemma_quarter_turn_cycle(pose.up, axis, sign);
    lemma_quarter_turn_cycle(pose.u_axis, axis, sign);
    lemma_quarter_turn_cycle(pose.v_axis, axis, sign);
}

/// Four quarter turns toward the same screen direction restore the pose.
pub proof fn lemma_rotate_four_times(pose: ViewPose, d: ScreenDir)
    requires
        pose.wf(),
    ensures
        pose.spec_rotate(d).spec_rotate(d).spec_rotate(d).spec_rotate(d) == pose,
{
    let axis = pose.spec_rotation_axis(d);
    let sign = rotation_sign(d);
    let p1 = pose.spec_rotate(d);
    let p2 = p1.spec_rotate(d);
    let p3 = p2.spec_rotate(d);
    lemma_cardinal_products(pose.up, pose.view_dir);
    lemma_quarter_turn_preserves(pose, axis, sign);
    lemma_rotation_axis_kept(pose, d);
    lemma_quarter_turn_preserves(p1, axis, sign);
    lemma_rotation_axis_kept(p1, d);
    lemma_quarter_turn_preserves(p2, axis, sign);
    lemma_rotation_axis_kept(p2, d);
    lemma_quarter_turn_cycle(pose.view_dir, axis, sign);
    lemma_quarter_turn_cycle(pose.up, axis, sign);
    lemma_quarter_turn_cycle(pose.u_axis, axis, sign);
    lemma_quarter_turn_cycle(pose.v_axis, axis, sign);
}

/// A quarter turn about a cardinal axis keeps a well-formed pose well-formed.
proof fn lemma_quarter_turn_preserves(pose: ViewPose, axis: GridDir, sign: int)
    requires
        pose.wf(),
        axis.is_cardinal(),
        sign == 1 || sign == -1,
    ensures
        ({
            let t = ViewPose {
                view_dir: GridDir::spec_quarter_turn(pose.view_dir, axis, sign),
                up: GridDir::spec_quarter_turn(pose.up, axis, sign),
                u_axis: GridDir::spec_quarter_turn(pose.u_axis, axis, sign),
                v_axis: GridDir::spec_quarter_turn(pose.v_axis, axis, sign),
            };
            t.wf()
        }),
{
}

/// `v` clamped to `0..WORLD_SIZE`.
pub open spec fn clamp_axis(v: int) -> u16 {
    if v < 0 {
        0
    } else if v > WORLD_SIZE - 1 {
        (WORLD_SIZE - 1) as u16
    } else {
        v as u16
    }
}

fn clamp_coord(v: i32) -> (r: u16)
    ensures
        r == clamp_axis(v as int),
{
    let max = WORLD_SIZE as i32 - 1;
    if v < 0 {
        0
    } else if v > max {
        max as u16
    } else {
        v as u16
    }
}

impl OrthoView {
    pub open spec fn spec_from_view_dir(d: GridDir) -> OrthoView {
        // The last direction with the largest dot product wins.
        if d.x >= d.y && d.x >= -d.y && d.x >= d.z && d.x >= -d.z && d.x >= -d.x {
            OrthoView::Right
        } else if -d.x >= d.y && -d.x >= -d.y && -d.x >= d.z && -d.x >= -d.z {
            OrthoView::Left
        } else if -d.z >= d.y && -d.z >= -d.y && -d.z >= d.z {
            OrthoView::Back
        } else if d.z >= d.y && d.z >= -d.y {
            OrthoView::Front
        } else if -d.y >= d.y {
            OrthoView::Bottom
        } else {
            OrthoView::Top
        }
    }

    pub open spec fn spec_slice_uses_lte(self) -> bool {
        self == OrthoView::Top || self == OrthoView::Front || self == OrthoView::Right
    }

    pub open spec fn spec_depth_world_axis(self) -> GridDir {
        match self {
            OrthoView::Top | OrthoView::Bottom => dir(0, 1, 0),
            OrthoView::Front | OrthoView::Back => dir(0, 0, 1),
            OrthoView::Left | OrthoView::Right => dir(1, 0, 0),
        }
    }

    /// Component of `d` along this face's depth axis.
    pub open spec fn spec_depth_component(self, d: GridDir) -> int {
        match self {
            OrthoView::Top | OrthoView::Bottom => d.y as int,
            OrthoView::Front | OrthoView::Back => d.z as int,
            OrthoView::Left | OrthoView::Right => d.x as int,
        }
    }

    pub open spec fn spec_slice_depth(self, pos: WorldPos) -> u16 {
        match self {
            OrthoView::Top | OrthoView::Bottom => pos.y,
            OrthoView::Front | OrthoView::Back => pos.z,
            OrthoView::Left | OrthoView::Right => pos.x,
        }
    }

    pub open spec fn spec_nudge_depth(self, pos: WorldPos, delta: int) -> WorldPos {
        match self {
            OrthoView::Top | OrthoView::Bottom => WorldPos { y: clamp_axis(pos.y + delta), ..pos },
            OrthoView::Front | OrthoView::Back => WorldPos { z: clamp_axis(pos.z + delta), ..pos },
            OrthoView::Left | OrthoView::Right => WorldPos { x: clamp_axis(pos.x + delta), ..pos },
        }
    }

    pub open spec fn spec_default_pose(self) -> ViewPose {
        match self {
            OrthoView::Top => ViewPose::spec_top_default(),
            OrthoView::Bottom => ViewPose { view_dir: dir(0, -1i8, 0), up: dir(0, 0, 1), u_axis: dir(1, 0, 0), v_axis: dir(0, 0, -1i8) },
            OrthoView::Front => ViewPose { view_dir: dir(0, 0, 1), up: dir(0, 1, 0), u_axis: dir(1, 0, 0), v_axis: dir(0, 1, 0) },
            OrthoView::Back => ViewPose { view_dir: dir(0, 0, -1i8), up: dir(0, -1i8, 0), u_axis: dir(-1i8, 0, 0), v_axis: dir(0, -1i8, 0) },
            OrthoView::Left => ViewPose { view_dir: dir(-1i8, 0, 0), up: dir(0, 1, 0), u_axis: dir(0, 1, 0), v_axis: dir(0, 0, 1) },
            OrthoView::Right => ViewPose { view_dir: dir(1, 0, 0), up: dir(0, 1, 0), u_axis: dir(0, -1i8, 0), v_axis: dir(0, 0, -1i8) },
        }
    }

    /// The six faces.
    pub fn all() -> (r: [OrthoView; 6])
        ensures
            r@ == seq![OrthoView::Top, OrthoView::Bottom, OrthoView::Front, OrthoView::Back, OrthoView::Left, OrthoView::Right],
    {
        [OrthoView::Top, OrthoView::Bottom, OrthoView::Front, OrthoView::Back, OrthoView::Left, OrthoView::Right]
    }

    pub open spec fn spec_label(self) -> Seq<char> {
        match self {
            OrthoView::Top => "Top"@,
            OrthoView::Bottom => "Bottom"@,
            OrthoView::Front => "Front"@,
            OrthoView::Back => "Back"@,
            OrthoView::Left => "Left"@,
            OrthoView::Right => "Right"@,
        }
    }

    pub open spec fn spec_depth_axis_label(self) -> Seq<char> {
        match self {
            OrthoView::Top | OrthoView::Bottom => "Y"@,
            OrthoView::Front | OrthoView::Back => "Z"@,
            OrthoView::Left | OrthoView::Right => "X"@,
        }
    }

    pub fn label(self) -> (r: &'static str)
        ensures
            r@ == self.spec_label(),
    {
        match self {
            OrthoView::Top => "Top",
            OrthoView::Bottom => "Bottom",
            OrthoView::Front => "Front",
            OrthoView::Back => "Back",
            OrthoView::Left => "Left",
            OrthoView::Right => "Right",
        }
    }

    pub fn depth_axis_label(self) -> (r: &'static str)
        ensures
            r@ == self.spec_depth_axis_label(),
    {
        match self {
            OrthoView::Top | OrthoView::Bottom => "Y",
            OrthoView::Front | OrthoView::Back => "Z",
            OrthoView::Left | OrthoView::Right => "X",
        }
    }

    pub fn depth_axis(self) -> (r: DepthAxis)
        ensures
            r == match self {
                OrthoView::Top | OrthoView::Bottom => DepthAxis::Y,
                OrthoView::Front | OrthoView::Back => DepthAxis::Z,
                OrthoView::Left | OrthoView::Right => DepthAxis::X,
            },
    {
        match self {
            OrthoView::Top | OrthoView::Bottom => DepthAxis::Y,
            OrthoView::Front | OrthoView::Back => DepthAxis::Z,
            OrthoView::Left | OrthoView::Right => DepthAxis::X,
        }
    }

    pub fn slice_uses_lte(self) -> (r: bool)
        ensures
            r == self.spec_slice_uses_lte(),
    {
        match self {
            OrthoView::Top | OrthoView::Front | OrthoView::Right => true,
            _ => false,
        }
    }

    pub fn depth_world_axis(self) -> (r: GridDir)
        ensures
            r == self.spec_depth_world_axis(),
    {
        match self {
            OrthoView::Top | OrthoView::Bottom => GridDir::new(0, 1, 0),
            OrthoView::Front | OrthoView::Back => GridDir::new(0, 0, 1),
            OrthoView::Left | OrthoView::Right => GridDir::new(1, 0, 0),
        }
    }

    /// Whether the camera looks from the positive side of this face's depth
    /// axis (cells at or below the slice depth are visible).
    pub fn slice_uses_lte_for_dir(self, view_dir: GridDir) -> (r: bool)
        ensures
            r == (self.spec_depth_component(view_dir) > 0),
            (view_dir.is_cardinal() && OrthoView::spec_from_view_dir(view_dir) == self) ==> r == self.spec_slice_uses_lte(),
    {
        match self {
            OrthoView::Top | OrthoView::Bottom => view_dir.y > 0,
            OrthoView::Front | OrthoView::Back => view_dir.z > 0,
            OrthoView::Left | OrthoView::Right => view_dir.x > 0,
        }
    }

    /// The face looked at along `d` (the cardinal direction nearest to `d`).
    pub fn from_view_dir(d: GridDir) -> (r: Self)
        ensures
            r == Self::spec_from_view_dir(d),
    {
        let x = d.x as i16;
        let y = d.y as i16;
        let z = d.z as i16;
        if x >= y && x >= -y && x >= z && x >= -z && x >= -x {
            OrthoView::Right
        } else if -x >= y && -x >= -y && -x >= z && -x >= -z {
            OrthoView::Left
        } else if -z >= y && -z >= -y && -z >= z {
            OrthoView::Back
        } else if z >= y && z >= -y {
            OrthoView::Front
        } else if -y >= y {
            OrthoView::Bottom
        } else {
            OrthoView::Top
        }
    }

    pub fn slice_depth(self, pos: WorldPos) -> (r: u16)
        ensures
            r == self.spec_slice_depth(pos),
    {
        match self {
            OrthoView::Top | OrthoView::Bottom => pos.y,
            OrthoView::Front | OrthoView::Back => pos.z,
            OrthoView::Left | OrthoView::Right => pos.x,
        }
    }

    pub fn nudge_depth(self, pos: WorldPos, delta: i16) -> (r: WorldPos)
        ensures
            r == self.spec_nudge_depth(pos, delta as int),
    {
        match self {
            OrthoView::Top | OrthoView::Bottom => WorldPos::new(pos.x, clamp_coord(pos.y as i32 + delta as i32), pos.z),
            OrthoView::Front | OrthoView::Back => WorldPos::new(pos.x, pos.y, clamp_coord(pos.z as i32 + delta as i32)),
            OrthoView::Left | OrthoView::Right => WorldPos::new(clamp_coord(pos.x as i32 + delta as i32), pos.y, pos.z),
        }
    }

    /// Default pose for tests and canonical face presets.
    pub fn default_pose(self) -> (r: ViewPose)
        ensures
            r == self.spec_default_pose(),
            r.wf(),
            r.spec_face() == self,
    {
        match self {
            OrthoView::Top => ViewPose::top_default(),
            OrthoView::Bottom => ViewPose {
                view_dir: GridDir::new(0, -1, 0),
                up: GridDir::new(0, 0, 1),
                u_axis: GridDir::new(1, 0, 0),
                v_axis: GridDir::new(0, 0, -1),
            },
            OrthoView::Front => ViewPose {
                view_dir: GridDir::new(0, 0, 1),
                up: GridDir::new(0, 1, 0),
                u_axis: GridDir::new(1, 0, 0),
                v_axis: GridDir::new(0, 1, 0),
            },
            OrthoView::Back => ViewPose {
                view_dir: GridDir::new(0, 0, -1),
                up: GridDir::new(0, -1, 0),
                u_axis: GridDir::new(-1, 0, 0),
                v_axis: GridDir::new(0, -1, 0),
            },
            OrthoView::Left => ViewPose {
                view_dir: GridDir::new(-1, 0, 0),
                up: GridDir::new(0, 1, 0),
                u_axis: GridDir::new(0, 1, 0),
                v_axis: GridDir::new(0, 0, 1),
            },
            OrthoView::Right => ViewPose {
                view_dir: GridDir::new(1, 0, 0),
                up: GridDir::new(0, 1, 0),
                u_axis: GridDir::new(0, -1, 0),
                v_axis: GridDir::new(0, 0, -1),
            },
        }
    }
}

impl Default for OrthoView {
    fn default() -> (r: Self)
        ensures
            r == OrthoView::Top,
    {
        OrthoView::Top
    }
}

/// Currently displayed camera pose around the selection.
#[derive(Clone, Copy, Debug, PartialEq, Eq, Structural)]
pub struct ActiveView {
    pub pose: ViewPose,
}

impl Default for ActiveView {
    fn default() -> (r: Self)
        ensures
            r.pose == ViewPose::spec_top_default(),
    {
        ActiveView { pose: ViewPose::top_default() }
    }
}

impl ActiveView {
    pub fn face(&self) -> (r: OrthoView)
        ensures
            r == self.pose.spec_face(),
    {
        self.pose.face()
    }

    pub fn rotate(&mut self, dir: ScreenDir)
        requires
            old(self).pose.wf(),
        ensures
            final(self).pose == old(self).pose.spec_rotate(dir),
            final(self).pose.wf(),
    {
        self.pose.rotate(dir);
    }

    pub fn snap_top(&mut self)
        ensures
            final(self).pose == ViewPose::spec_top_default(),
    {
        self.pose = ViewPose::top_default();
    }
}

/// The coordinate of `pos` on the axis that `d` points along (its sign
/// ignored).
pub open spec fn axis_coord(pos: WorldPos, d: GridDir) -> int {
    if d.x != 0 {
        pos.x as int
    } else if d.y != 0 {
        pos.y as int
    } else {
        pos.z as int
    }
}

/// +1 when `d` points along a positive axis, -1 along a negative one.
pub open spec fn axis_sign(d: GridDir) -> int {
    d.x + d.y + d.z
}

/// Stepping the depth slice moves a position along the camera's viewing
/// axis only: its coordinate there becomes the old one plus `delta`,
/// clamped to the world, and its coordinates on the two screen axes stay.
pub proof fn lemma_nudge_depth_moves_along_view(pose: ViewPose, pos: WorldPos, delta: int)
    requires
        pose.wf(),
    ensures
        ({
            let q = pose.spec_face().spec_nudge_depth(pos, delta);
            &&& axis_coord(q, pose.view_dir) == clamp_axis(axis_coord(pos, pose.view_dir) + delta)
            &&& axis_coord(q, pose.u_axis) == axis_coord(pos, pose.u_axis)
            &&& axis_coord(q, pose.v_axis) == axis_coord(pos, pose.v_axis)
        }),
{
}

} // verus!
