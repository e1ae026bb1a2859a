use boxes::{ActiveView, GridDir, OrthoView, ScreenDir, ViewPose, WorldPos};

fn rotate(mut active: ActiveView, dir: ScreenDir) -> ActiveView {
    active.rotate(dir);
    active
}

#[test]
fn top_up_moves_to_back_with_inverted_y() {
    let active = rotate(ActiveView::default(), ScreenDir::Up);
    assert_eq!(active.face(), OrthoView::Back);
    assert_eq!(active.pose.up, GridDir::new(0, -1, 0));
}

#[test]
fn top_down_moves_to_front_with_normal_y() {
    let active = rotate(ActiveView::default(), ScreenDir::Down);
    assert_eq!(active.face(), OrthoView::Front);
    assert_eq!(active.pose.up, GridDir::new(0, 1, 0));
}

#[test]
fn repeated_right_from_top_cycles_equatorial_faces() {
    let mut active = ActiveView::default();
    for expected in [
        OrthoView::Right,
        OrthoView::Bottom,
        OrthoView::Left,
        OrthoView::Top,
        OrthoView::Right,
    ] {
        active = rotate(active, ScreenDir::Right);
        assert_eq!(active.face(), expected);
    }
}

#[test]
fn repeated_left_from_top_cycles_equatorial_faces() {
    let mut active = ActiveView::default();
    for expected in [
        OrthoView::Left,
        OrthoView::Bottom,
        OrthoView::Right,
        OrthoView::Top,
        OrthoView::Left,
    ] {
        active = rotate(active, ScreenDir::Left);
        assert_eq!(active.face(), expected);
    }
}

#[test]
fn top_screen_up_moves_toward_negative_z() {
    let pos = WorldPos::new(10, 5, 8);
    let next = ViewPose::top_default().nudge_screen(pos, ScreenDir::Up);
    assert_eq!(next, WorldPos::new(10, 5, 7));
}

#[test]
fn left_view_screen_left_moves_along_z() {
    let pos = WorldPos::new(10, 5, 8);
    let pose = OrthoView::Left.default_pose();
    let next = pose.nudge_screen(pos, ScreenDir::Left);
    assert_eq!(next, WorldPos::new(10, 5, 7));
    let next = pose.nudge_screen(pos, ScreenDir::Right);
    assert_eq!(next, WorldPos::new(10, 5, 9));
}

#[test]
fn left_view_screen_up_moves_along_y() {
    let pos = WorldPos::new(10, 5, 8);
    let next = OrthoView::Left.default_pose().nudge_screen(pos, ScreenDir::Up);
    assert_eq!(next, WorldPos::new(10, 6, 8));
}

#[test]
fn back_from_top_up_screen_left_moves_along_negative_x() {
    let pose = rotate(ActiveView::default(), ScreenDir::Up).pose;
    let pos = WorldPos::new(10, 5, 8);
    let next = pose.nudge_screen(pos, ScreenDir::Left);
    assert_eq!(next, WorldPos::new(9, 5, 8));
}

#[test]
fn ctrl_left_steps_through_equatorial_faces() {
    let mut active = ActiveView::default();
    for expected in [OrthoView::Left, OrthoView::Bottom, OrthoView::Right] {
        active = rotate(active, ScreenDir::Left);
        assert_eq!(active.face(), expected);
    }
}

#[test]
fn ctrl_right_from_back_orbits_through_side_faces() {
    let mut active = rotate(ActiveView::default(), ScreenDir::Up);
    assert_eq!(active.face(), OrthoView::Back);

    for expected in [
        OrthoView::Right,
        OrthoView::Front,
        OrthoView::Left,
        OrthoView::Back,
    ] {
        active = rotate(active, ScreenDir::Right);
        assert_eq!(active.face(), expected, "after ctrl+right step");
    }
}

#[test]
fn slice_depth_from_position_per_view() {
    let pos = WorldPos::new(10, 20, 30);
    assert_eq!(OrthoView::Top.slice_depth(pos), 20);
    assert_eq!(OrthoView::Front.slice_depth(pos), 30);
    assert_eq!(OrthoView::Left.slice_depth(pos), 10);
}

#[test]
fn depth_step_forward_sign_for_default_faces() {
    let cases = [
        (OrthoView::Top, -1),
        (OrthoView::Bottom, 1),
        (OrthoView::Left, 1),
        (OrthoView::Right, -1),
        (OrthoView::Back, 1),
        (OrthoView::Front, -1),
    ];
    for (face, expected) in cases {
        assert_eq!(face.default_pose().depth_step_forward_sign(), expected, "{face:?}");
    }
}

#[test]
fn depth_step_forward_moves_into_scene_for_top_view() {
    let pose = OrthoView::Top.default_pose();
    let pos = WorldPos::new(10, 10, 10);
    let next = pose.nudge_depth(pos, pose.depth_step_delta(1));
    assert_eq!(next, WorldPos::new(10, 9, 10));
}

#[test]
fn depth_step_forward_moves_into_scene_for_bottom_view() {
    let pose = OrthoView::Bottom.default_pose();
    let pos = WorldPos::new(10, 10, 10);
    let next = pose.nudge_depth(pos, pose.depth_step_delta(1));
    assert_eq!(next, WorldPos::new(10, 11, 10));
}
