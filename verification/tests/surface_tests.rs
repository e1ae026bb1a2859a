use boxes::{
    cells_for_chunk, depth_draw_order, uv_depth_to_cell, is_cell_visible_at_slice, is_on_slice, make_generator,
    make_transformer, pick_surface_at_uv, unclipped_slice_depth, visible_cells, visible_surface,
    Direction, OrthoView, Simulation, WorldPos,
};

#[test]
fn top_view_picks_highest_cell_in_column() {
    let mut sim = Simulation::new();
    sim.world.set(WorldPos::new(10, 1, 10), make_generator(20, 1));
    sim.world.set(WorldPos::new(10, 5, 10), make_generator(20, 2));

    let surface = visible_surface(
        &sim,
        OrthoView::Top.default_pose(),
        unclipped_slice_depth(OrthoView::Top),
    );
    let (_, cell) = surface.get((10, 10)).unwrap();
    assert_eq!(cell.state, 2);
}

#[test]
fn bottom_view_picks_lowest_y() {
    let mut sim = Simulation::new();
    sim.world.set(WorldPos::new(10, 1, 10), make_generator(20, 1));
    sim.world.set(WorldPos::new(10, 5, 10), make_generator(20, 2));

    let surface = visible_surface(
        &sim,
        OrthoView::Bottom.default_pose(),
        unclipped_slice_depth(OrthoView::Bottom),
    );
    let (_, cell) = surface.get((10, 10)).unwrap();
    assert_eq!(cell.state, 1);
}

#[test]
fn back_view_picks_min_z() {
    let mut sim = Simulation::new();
    sim.world.set(WorldPos::new(5, 5, 1), make_generator(20, 1));
    sim.world.set(WorldPos::new(5, 5, 9), make_generator(20, 2));

    let surface = visible_surface(
        &sim,
        OrthoView::Back.default_pose(),
        unclipped_slice_depth(OrthoView::Back),
    );
    let (_, cell) = surface.get((5, 5)).unwrap();
    assert_eq!(cell.state, 1);
}

#[test]
fn right_view_picks_max_x() {
    let mut sim = Simulation::new();
    sim.world.set(WorldPos::new(1, 5, 5), make_generator(20, 1));
    sim.world.set(WorldPos::new(9, 5, 5), make_generator(20, 2));

    let surface = visible_surface(
        &sim,
        OrthoView::Right.default_pose(),
        unclipped_slice_depth(OrthoView::Right),
    );
    let (_, cell) = surface.get((5, 5)).unwrap();
    assert_eq!(cell.state, 2);
}

#[test]
fn front_view_picks_max_z() {
    let mut sim = Simulation::new();
    sim.world.set(WorldPos::new(5, 5, 1), make_generator(20, 1));
    sim.world.set(WorldPos::new(5, 5, 9), make_generator(20, 2));

    let surface = visible_surface(
        &sim,
        OrthoView::Front.default_pose(),
        unclipped_slice_depth(OrthoView::Front),
    );
    let (_, cell) = surface.get((5, 5)).unwrap();
    assert_eq!(cell.state, 2);
}

#[test]
fn top_slice_hides_cells_above_depth() {
    let mut sim = Simulation::new();
    sim.world.set(WorldPos::new(10, 3, 10), make_generator(20, 1));
    sim.world.set(WorldPos::new(10, 8, 10), make_generator(20, 2));

    let surface = visible_surface(&sim, OrthoView::Top.default_pose(), 5);
    let (pos, cell) = surface.get((10, 10)).unwrap();
    assert_eq!(pos, WorldPos::new(10, 3, 10));
    assert_eq!(cell.state, 1);
}

#[test]
fn left_slice_hides_cells_between_slice_and_camera() {
    let mut sim = Simulation::new();
    sim.world.set(WorldPos::new(2, 5, 5), make_generator(20, 1));
    sim.world.set(WorldPos::new(8, 5, 5), make_generator(20, 2));

    let surface = visible_surface(&sim, OrthoView::Left.default_pose(), 5);
    let (pos, cell) = surface.get((5, 5)).unwrap();
    assert_eq!(pos, WorldPos::new(8, 5, 5));
    assert_eq!(cell.state, 2);
}

#[test]
fn is_cell_visible_at_slice_respects_view_axis() {
    assert!(is_cell_visible_at_slice(
        WorldPos::new(10, 5, 10),
        OrthoView::Top.default_pose(),
        5
    ));
    assert!(!is_cell_visible_at_slice(
        WorldPos::new(10, 6, 10),
        OrthoView::Top.default_pose(),
        5
    ));
    assert!(is_cell_visible_at_slice(
        WorldPos::new(8, 5, 5),
        OrthoView::Left.default_pose(),
        5
    ));
    assert!(!is_cell_visible_at_slice(
        WorldPos::new(4, 5, 5),
        OrthoView::Left.default_pose(),
        5
    ));
}

#[test]
fn visible_cells_includes_all_layers_in_column() {
    let mut sim = Simulation::new();
    sim.world.set(WorldPos::new(10, 2, 10), make_generator(20, 1));
    sim.world.set(WorldPos::new(10, 5, 10), make_generator(20, 2));

    let cells = visible_cells(&sim, OrthoView::Top.default_pose(), 5);
    assert_eq!(cells.len(), 2);
}

#[test]
fn is_on_slice_matches_depth() {
    let pose = OrthoView::Top.default_pose();
    assert!(is_on_slice(WorldPos::new(10, 5, 10), pose, 5));
    assert!(!is_on_slice(WorldPos::new(10, 4, 10), pose, 5));
}

#[test]
fn depth_draw_order_puts_slice_cells_last_for_top_view() {
    let pose = OrthoView::Top.default_pose();
    let near = depth_draw_order(WorldPos::new(10, 5, 10), pose);
    let far = depth_draw_order(WorldPos::new(10, 2, 10), pose);
    assert!(far < near);
}

#[test]
fn top_surface_pick_highest_y() {
    let mut sim = Simulation::new();
    sim.world.set(WorldPos::new(10, 2, 10), make_generator(20, 1));
    sim.world.set(WorldPos::new(10, 8, 10), make_generator(20, 2));

    let picked = pick_surface_at_uv(
        &sim,
        OrthoView::Top.default_pose(),
        10,
        10,
        unclipped_slice_depth(OrthoView::Top),
    )
    .unwrap();
    assert_eq!(picked, WorldPos::new(10, 8, 10));
}

#[test]
fn front_surface_pick_max_z() {
    let mut sim = Simulation::new();
    sim.world.set(WorldPos::new(5, 5, 1), make_generator(20, 1));
    sim.world.set(WorldPos::new(5, 5, 9), make_generator(20, 2));

    let picked = pick_surface_at_uv(
        &sim,
        OrthoView::Front.default_pose(),
        5,
        5,
        unclipped_slice_depth(OrthoView::Front),
    )
    .unwrap();
    assert_eq!(picked, WorldPos::new(5, 5, 9));
}

#[test]
fn left_surface_pick_min_x() {
    let mut sim = Simulation::new();
    sim.world.set(WorldPos::new(9, 5, 5), make_generator(20, 1));
    sim.world.set(WorldPos::new(1, 5, 5), make_generator(20, 2));

    let picked = pick_surface_at_uv(
        &sim,
        OrthoView::Left.default_pose(),
        5,
        5,
        unclipped_slice_depth(OrthoView::Left),
    )
    .unwrap();
    assert_eq!(picked, WorldPos::new(1, 5, 5));
}

#[test]
fn surface_cells_grouped_by_chunk() {
    let mut sim = Simulation::new();
    sim.world.set(WorldPos::new(33, 40, 33), make_generator(20, 1));
    let pose = OrthoView::Top.default_pose();
    let surface = visible_surface(&sim, pose, unclipped_slice_depth(OrthoView::Top));
    let coord = WorldPos::new(33, 40, 33).chunk_coord();
    let cells = cells_for_chunk(&surface.cells(), coord);
    assert_eq!(cells.len(), 1);
}

#[test]
fn pick_surface_at_uv_finds_single_transformer() {
    let mut sim = Simulation::new();
    sim.world.set(WorldPos::new(10, 8, 10), make_transformer(Direction::PosX, 0));

    let picked = pick_surface_at_uv(
        &sim,
        OrthoView::Top.default_pose(),
        10,
        10,
        unclipped_slice_depth(OrthoView::Top),
    );
    assert_eq!(picked, Some(WorldPos::new(10, 8, 10)));
}

#[test]
fn uv_depth_to_cell_places_on_top_slice() {
    let pos = uv_depth_to_cell(OrthoView::Top.default_pose(), 15, 20, 7);
    assert_eq!(pos, WorldPos::new(15, 7, 20));
}
