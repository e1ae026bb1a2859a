use boxes::generator_period;
use boxes::{slice_step, zoom_step, ChunkMap, SliceKeys};
use boxes::{
    affected_chunks, aggregator_mode, apply_tool, cells_for_chunk, clamp_pos, format_debug_overlay,
    format_depth_slice, format_inspector, format_throughput, generator_should_fire,
    is_drag_repeat, make_aggregator, make_generator, make_transformer, random_selection,
    run_sim_tick, seed_demo_world, selection_weights_fit, transformer_direction,
    unclipped_slice_depth, uv_depth_to_cell, view_key, visible_cells, visible_surface,
    ActiveTool, ActiveView, Cell, CellFlags, CellTypeRegistry, ChunkCoord, Direction, OrthoView,
    ReduceMode, ScreenDir, SimControlButton, SimPlayback, SimSpeed, SimTickStats, Simulation,
    ToolKeys, ToolOutcome, ToolState, WorldPos, TYPE_AGGREGATOR, TYPE_GENERATOR,
    TYPE_TRANSFORMER,
};

fn opposite(d: ScreenDir) -> ScreenDir {
    match d {
        ScreenDir::Up => ScreenDir::Down,
        ScreenDir::Down => ScreenDir::Up,
        ScreenDir::Left => ScreenDir::Right,
        ScreenDir::Right => ScreenDir::Left,
    }
}

#[test]
fn flag_set_then_contains_and_clear() {
    let mut flags = CellFlags(0b100);
    flags.set(CellFlags::DIRTY);
    assert!(flags.contains(CellFlags::DIRTY));
    assert!(flags.contains(0b100));
    flags.clear(CellFlags::DIRTY);
    assert!(!flags.contains(CellFlags::DIRTY));
    assert_eq!(flags.0, 0b100);
}

#[test]
fn neighbors_at_corner_and_interior() {
    assert_eq!(WorldPos::new(0, 0, 0).neighbors_6().len(), 3);
    assert_eq!(WorldPos::new(499, 499, 499).neighbors_6().len(), 3);
    let n = WorldPos::new(10, 10, 10).neighbors_6();
    assert_eq!(
        n,
        vec![
            WorldPos::new(11, 10, 10),
            WorldPos::new(9, 10, 10),
            WorldPos::new(10, 11, 10),
            WorldPos::new(10, 9, 10),
            WorldPos::new(10, 10, 11),
            WorldPos::new(10, 10, 9),
        ]
    );
}

#[test]
fn write_then_read_back() {
    let mut sim = Simulation::new();
    let pos = WorldPos::new(3, 4, 5);
    let other = WorldPos::new(3, 4, 6);
    let cell = make_aggregator(ReduceMode::Max, 9);
    assert!(sim.world.set(pos, cell));
    assert_eq!(sim.world.get(pos), cell);
    assert!(sim.world.get(other).is_empty());
    // Writing outside the world changes nothing and reads back empty.
    assert!(!sim.world.set(WorldPos::new(500, 0, 0), cell));
    assert!(sim.world.get(WorldPos::new(500, 0, 0)).is_empty());
    // Writing an empty cell with stray fields stores the all-zero cell.
    sim.world.set(pos, Cell { type_id: 0, flags: 3, state: 7, reserved: 1 });
    assert_eq!(sim.world.get(pos), Cell::empty());
    assert_eq!(sim.world.chunks.chunk_count(), 0);
}

#[test]
fn registry_listeners_are_event_driven() {
    for id in 0..=255u8 {
        let listens = CellTypeRegistry::listens_to_neighbors(id);
        let event_driven = CellTypeRegistry::get(id).map(|i| i.is_event_driven).unwrap_or(false);
        assert_eq!(listens, event_driven);
    }
    assert!(CellTypeRegistry::get(4).is_none());
    assert_eq!(CellTypeRegistry::get(TYPE_AGGREGATOR).unwrap().name, "aggregator");
}

#[test]
fn factory_encodings_round_trip() {
    for d in [
        Direction::PosX,
        Direction::NegX,
        Direction::PosY,
        Direction::NegY,
        Direction::PosZ,
        Direction::NegZ,
    ] {
        assert_eq!(transformer_direction(make_transformer(d, 3)), d);
    }
    assert_eq!(aggregator_mode(make_aggregator(ReduceMode::Max, 0)), ReduceMode::Max);
    assert_eq!(boxes::generator_period(make_generator(0, 0)), 1);
    assert_eq!(boxes::generator_period(make_generator(37, 0)), 37);
}

#[test]
fn generator_fires_once_in_each_period_window() {
    let pos = WorldPos::new(3, 2, 1);
    for period in [1u32, 7, 20] {
        for start in [0u64, 5, 1000] {
            let fires = (start..start + u64::from(period))
                .filter(|t| generator_should_fire(*t, pos, period))
                .count();
            assert_eq!(fires, 1);
        }
    }
    // (19 + phase 6) is a multiple of 25.
    assert!(generator_should_fire(19, pos, 25));
}

#[test]
fn staggered_phases_do_not_fire_together() {
    let a = WorldPos::new(0, 0, 1);
    let b = WorldPos::new(0, 0, 2);
    for tick in 0..200u64 {
        assert!(!(generator_should_fire(tick, a, 20) && generator_should_fire(tick, b, 20)));
    }
}

#[test]
fn rotation_then_opposite_and_four_turns_restore_pose() {
    for face in OrthoView::all() {
        let pose = face.default_pose();
        for d in [ScreenDir::Up, ScreenDir::Down, ScreenDir::Left, ScreenDir::Right] {
            let mut back = pose;
            back.rotate(d);
            back.rotate(opposite(d));
            assert_eq!(back, pose);

            let mut cycled = pose;
            for _ in 0..4 {
                cycled.rotate(d);
            }
            assert_eq!(cycled, pose);
        }
        assert_eq!(pose.face(), face);
    }
    let mut active = ActiveView::default();
    active.rotate(ScreenDir::Left);
    active.snap_top();
    assert_eq!(active.face(), OrthoView::Top);
}

#[test]
fn uv_depth_round_trip_on_back_face() {
    let pose = OrthoView::Back.default_pose();
    let pos = WorldPos::new(42, 17, 99);
    // Back looks along -Z with u along -X and v along -Y: both mirror.
    assert_eq!(uv_depth_to_cell(pose, 499 - 42, 499 - 17, 99), pos);
    let top = OrthoView::Top.default_pose();
    assert_eq!(uv_depth_to_cell(top, 42, 99, 17), pos);
    // Mirroring floors at zero past the world edge.
    assert_eq!(uv_depth_to_cell(pose, 600, 0, 0).x, 0);
}

#[test]
fn speed_cycles_through_three_settings() {
    let s = SimSpeed::default();
    assert_eq!(s, SimSpeed::Normal);
    assert_eq!(s.next(), SimSpeed::Double);
    assert_eq!(s.next().next(), SimSpeed::Half);
    assert_eq!(s.next().next().next(), s);
    assert_eq!(SimSpeed::Half.label(), "0.5x");
}

#[test]
fn playback_controls() {
    let mut p = SimPlayback::default();
    p.press(SimControlButton::Pause);
    assert!(p.paused);
    assert_eq!(p.control_label(SimControlButton::Pause), "Resume");
    p.press(SimControlButton::Step);
    assert!(p.step_pending);
    assert!(p.take_step_request());
    assert!(!p.step_pending);
    assert!(!p.take_step_request());
    p.press(SimControlButton::Speed);
    assert_eq!(p.speed, SimSpeed::Double);
    assert_eq!(p.control_label(SimControlButton::Speed), "2x");
    p.press(SimControlButton::DebugOverlay);
    assert_eq!(p.control_label(SimControlButton::DebugOverlay), "Debug*");
    p.press(SimControlButton::Pause);
    assert!(!p.paused);
    assert_eq!(p.control_label(SimControlButton::Step), "Step");
}

#[test]
fn random_selection_picks_by_weight_sum() {
    let mut sim = Simulation::new();
    let a = WorldPos::new(1, 1, 1);
    let b = WorldPos::new(10, 11, 12);
    let c = WorldPos::new(21, 0, 5);
    sim.world.set(b, make_generator(20, 0));
    sim.world.set(c, make_generator(20, 0));
    // Weights 3665 + 1466 = 5131, an odd index into the two non-empty candidates.
    assert!(selection_weights_fit(&[a, b, c], &sim));
    assert_eq!(random_selection(&[a, b, c], &sim), c);
    assert_eq!(random_selection(&[a, c, b], &sim), b);
}

#[test]
fn selection_weights_overflow_detected() {
    let mut sim = Simulation::new();
    let mut candidates = Vec::new();
    for i in 0..40_000u32 {
        let pos = WorldPos::new(400 + (i % 100) as u16, 400 + ((i / 100) % 100) as u16, 400 + (i / 10_000) as u16);
        sim.world.set(pos, make_generator(20, 0));
        candidates.push(pos);
    }
    assert!(!selection_weights_fit(&candidates, &sim));
    assert!(selection_weights_fit(&candidates[..100], &sim));
}

#[test]
fn clamp_keeps_in_world_positions() {
    assert_eq!(clamp_pos(WorldPos::new(5, 600, 499)), WorldPos::new(5, 499, 499));
    assert_eq!(clamp_pos(WorldPos::new(1, 2, 3)), WorldPos::new(1, 2, 3));
}

#[test]
fn view_keys_and_unclipped_depths() {
    let p = WorldPos::new(1, 2, 3);
    assert_eq!(view_key(p, OrthoView::Top), (1, 3));
    assert_eq!(view_key(p, OrthoView::Back), (1, 2));
    assert_eq!(view_key(p, OrthoView::Left), (2, 3));
    assert_eq!(unclipped_slice_depth(OrthoView::Top), 499);
    assert_eq!(unclipped_slice_depth(OrthoView::Left), 0);
}

#[test]
fn affected_chunks_span_depth_axis() {
    let p = WorldPos::new(70, 100, 40);
    let top = affected_chunks(p, OrthoView::Top);
    assert_eq!(top.len(), 16);
    for (i, c) in top.iter().enumerate() {
        assert_eq!(*c, ChunkCoord::new(2, i as u16, 1));
    }
    let left = affected_chunks(p, OrthoView::Left);
    assert_eq!(left[5], ChunkCoord::new(5, 3, 1));
}

#[test]
fn visible_cells_sorted_back_to_front_and_grouped() {
    let mut sim = Simulation::new();
    sim.world.set(WorldPos::new(1, 9, 1), make_generator(20, 1));
    sim.world.set(WorldPos::new(40, 2, 1), make_generator(20, 2));
    sim.world.set(WorldPos::new(2, 5, 1), make_generator(20, 3));
    let pose = OrthoView::Bottom.default_pose();
    let cells = visible_cells(&sim, pose, 0);
    let ys: Vec<u16> = cells.iter().map(|(p, _)| p.y).collect();
    // Bottom looks up from below: the farthest (highest) cells draw first.
    assert_eq!(ys, vec![9, 5, 2]);
    let chunk0 = cells_for_chunk(&cells, ChunkCoord::new(0, 0, 0));
    assert_eq!(chunk0.len(), 2);
    let surface = visible_surface(&sim, pose, 0);
    assert_eq!(surface.cells().len(), 3);
    assert!(surface.get((7, 7)).is_none());
}

#[test]
fn tool_keys_switch_tools_and_slots() {
    let mut tools = ToolState::default();
    let none = ToolKeys {
        erase: false,
        place: false,
        inspect: false,
        shift: false,
        ctrl: false,
        digit_slot: None,
    };
    tools.apply_keys(ToolKeys { erase: true, ..none });
    assert_eq!(tools.active, ActiveTool::Erase);
    tools.apply_keys(ToolKeys { erase: true, inspect: true, ..none });
    assert_eq!(tools.active, ActiveTool::Inspect);
    tools.apply_keys(ToolKeys { digit_slot: Some(4), ..none });
    assert_eq!(tools.selected_slot, 0);
    tools.apply_keys(ToolKeys { shift: true, ctrl: true, digit_slot: Some(4), ..none });
    assert_eq!(tools.selected_slot, 0);
    tools.apply_keys(ToolKeys { shift: true, digit_slot: Some(4), ..none });
    assert_eq!(tools.selected_slot, 4);
    assert_eq!(tools.active, ActiveTool::Place);
    assert_eq!(tools.selected_preset().to_cell(), make_transformer(Direction::PosZ, 0));
}

#[test]
fn tools_erase_place_and_inspect() {
    let mut sim = Simulation::new();
    let mut tools = ToolState::default();
    let pos = WorldPos::new(8, 8, 8);

    tools.active = ActiveTool::Erase;
    assert_eq!(apply_tool(&mut sim, &tools, pos), ToolOutcome::Unchanged);

    tools.active = ActiveTool::Place;
    tools.selected_slot = 5;
    assert_eq!(apply_tool(&mut sim, &tools, pos), ToolOutcome::Placed);
    let placed = sim.world.get(pos);
    assert_eq!(placed.type_id, TYPE_AGGREGATOR);
    assert!(placed.flags().contains(CellFlags::DIRTY));
    assert_eq!(sim.dirty_queue_len(), 1);

    tools.active = ActiveTool::Inspect;
    assert_eq!(apply_tool(&mut sim, &tools, pos), ToolOutcome::Inspected(placed));

    tools.active = ActiveTool::Erase;
    assert_eq!(apply_tool(&mut sim, &tools, pos), ToolOutcome::Erased);
    assert!(sim.world.get(pos).is_empty());

    assert!(is_drag_repeat(false, true, Some(pos), pos));
    assert!(!is_drag_repeat(true, true, Some(pos), pos));
    assert!(!is_drag_repeat(false, true, None, pos));
}

#[test]
fn inspector_text_exact() {
    let text = format_inspector(Some(WorldPos::new(1, 2, 3)), make_generator(generator_period::STANDARD, 7));
    assert_eq!(text, "pos: (1, 2, 3)\ntype: generator\nstate: 7\nperiod_ticks: 20");
    let text = format_inspector(Some(WorldPos::new(0, 10, 200)), Cell::empty());
    assert_eq!(text, "pos: (0, 10, 200)\ntype: empty\nstate: 0\nempty cell");
    let text = format_inspector(Some(WorldPos::new(4, 4, 4)), make_aggregator(ReduceMode::Sum, 65535));
    assert_eq!(text, "pos: (4, 4, 4)\ntype: aggregator\nstate: 65535\nmode: sum");
    let text = format_inspector(Some(WorldPos::new(4, 4, 4)), Cell { type_id: 9, flags: 0, state: 1, reserved: 0 });
    assert_eq!(text, "pos: (4, 4, 4)\ntype: unknown\nstate: 1");
    let gen_zero = Cell { type_id: TYPE_GENERATOR, flags: 0, state: 0, reserved: 0 };
    assert!(format_inspector(Some(WorldPos::new(0, 0, 0)), gen_zero).ends_with("period_ticks: 1"));
    let xf = make_transformer(Direction::NegY, 0);
    assert_eq!(xf.type_id, TYPE_TRANSFORMER);
    assert!(format_inspector(Some(WorldPos::new(0, 0, 0)), xf).ends_with("input: -Y"));
}

#[test]
fn hud_lines_exact() {
    assert_eq!(
        format_throughput(u64::MAX, 0, 7),
        "tick: 18446744073709551615  updates: 0  dirty chunks: 7"
    );
    assert_eq!(format_depth_slice(OrthoView::Front, 251), "depth Z=251 (Front)");
    let stats = SimTickStats {
        last_dirty_chunks: 3,
        last_cell_updates: 12,
    };
    assert_eq!(format_debug_overlay(&stats, true), "last tick: 12 cell updates, 3 dirty chunks");
    assert_eq!(format_debug_overlay(&stats, false), "");
}

#[test]
fn demo_seed_layout_and_marked_listener() {
    let mut sim = Simulation::new();
    let positions = seed_demo_world(&mut sim);
    assert_eq!(positions.len(), 4096);
    assert_eq!(positions[0], WorldPos::new(218, 218, 218));
    assert_eq!(positions[1], WorldPos::new(218, 219, 219));
    assert_eq!(sim.world.get(positions[0]), make_generator(generator_period::STANDARD, 0));
    assert_eq!(sim.world.get(positions[1]), make_transformer(Direction::PosX, 0));
    assert_eq!(sim.dirty_queue_len(), 1);
    assert_eq!(sim.tick, 0);
}

#[test]
fn tick_report_lists_changed_cells_and_rebuilds() {
    let mut sim = Simulation::new();
    let source = WorldPos::new(51, 50, 50);
    let sink = WorldPos::new(50, 50, 50);
    sim.world.set(source, make_generator(10_000, 6));
    sim.world.set(sink, make_transformer(Direction::PosX, 0));
    sim.mark_dirty(sink);
    let report = run_sim_tick(&mut sim, OrthoView::Front);
    assert_eq!(sim.tick, 1);
    assert_eq!(report.chunks, vec![ChunkCoord::new(1, 1, 1)]);
    assert_eq!(report.changed_positions, vec![sink, source]);
    assert_eq!(report.rebuild.len(), 32);
    assert_eq!(report.stats.last_dirty_chunks, 1);
    assert_eq!(report.stats.last_cell_updates, 1);
    assert_eq!(sim.world.get(sink).state, 6);
}

fn seeded_sim() -> Simulation {
    let mut sim = Simulation::new();
    for i in 0..40u16 {
        sim.world.set(WorldPos::new(20 + i % 8, 20, 20 + i / 8), make_generator(20, i));
    }
    sim.mark_dirty(WorldPos::new(20, 20, 20));
    sim.mark_dirty(WorldPos::new(27, 20, 24));
    sim
}

#[test]
fn stepping_in_parts_matches_stepping_at_once() {
    let mut whole = seeded_sim();
    let mut parts = seeded_sim();
    let all = whole.step(3);
    let mut reported = parts.step(1);
    reported.extend(parts.step(2));
    reported.sort();
    reported.dedup();
    assert_eq!(all, reported);
    assert_eq!(whole.tick, parts.tick);
    assert_eq!(whole.dirty_queue_len(), parts.dirty_queue_len());
    for (pos, cell) in whole.world.chunks.iter_non_empty() {
        assert_eq!(parts.world.get(pos), cell);
    }
}

#[test]
fn stepping_is_deterministic() {
    let mut a = seeded_sim();
    let mut b = seeded_sim();
    assert_eq!(a.step(4), b.step(4));
    assert_eq!(a.world.chunks.iter_non_empty(), b.world.chunks.iter_non_empty());
    assert_eq!(a.dirty_queue_len(), b.dirty_queue_len());
}

#[test]
fn passive_tick_drains_and_clears_dirty_bits() {
    let mut sim = seeded_sim();
    assert!(sim.world.get(WorldPos::new(20, 20, 20)).flags().contains(CellFlags::DIRTY));
    let reported = sim.step(1);
    // Propagation walks the whole connected patch within the budget.
    assert_eq!(sim.dirty_queue_len(), 0);
    assert_eq!(reported, vec![ChunkCoord::new(0, 0, 0)]);
    for (_, cell) in sim.world.chunks.iter_non_empty() {
        assert!(!cell.flags().contains(CellFlags::DIRTY));
    }
    // A second tick has nothing left to report.
    assert!(sim.step(1).is_empty());
}

#[test]
fn queue_never_holds_a_cell_twice() {
    let mut sim = Simulation::new();
    let pos = WorldPos::new(1, 1, 1);
    sim.mark_dirty(pos);
    sim.mark_dirty(pos);
    sim.mark_dirty(WorldPos::new(600, 0, 0));
    assert_eq!(sim.dirty_queue_len(), 1);
}

fn engine_sim() -> Simulation {
    let mut sim = Simulation::new();
    let source = WorldPos::new(41, 40, 40);
    sim.world.set(source, make_generator(20, 7));
    sim.world.set(WorldPos::new(40, 40, 40), make_transformer(Direction::PosX, 0));
    sim.world.set(WorldPos::new(42, 40, 40), make_aggregator(ReduceMode::Sum, 0));
    sim.mark_dirty(WorldPos::new(40, 40, 40));
    sim.mark_dirty(WorldPos::new(42, 40, 40));
    sim
}

#[test]
fn cell_stepping_in_parts_matches_stepping_at_once() {
    let mut whole = engine_sim();
    let mut parts = engine_sim();
    let all = whole.step_cells(45);
    let mut reported = parts.step_cells(20);
    reported.extend(parts.step_cells(25));
    reported.sort();
    reported.dedup();
    assert_eq!(all, reported);
    assert_eq!(whole.tick, parts.tick);
    assert_eq!(whole.total_cell_updates, parts.total_cell_updates);
    assert_eq!(whole.world.chunks.iter_non_empty(), parts.world.chunks.iter_non_empty());
}

#[test]
fn cell_stepping_is_deterministic() {
    let mut a = engine_sim();
    let mut b = engine_sim();
    assert_eq!(a.step_cells(60), b.step_cells(60));
    assert_eq!(a.world.chunks.iter_non_empty(), b.world.chunks.iter_non_empty());
    assert_eq!(a.total_cell_updates, b.total_cell_updates);
}

#[test]
fn quiet_ticks_change_nothing() {
    let mut sim = Simulation::new();
    let source = WorldPos::new(41, 40, 40);
    // Period 10 000: after tick 0 this generator is not due again for a long time.
    sim.world.set(source, make_generator(10_000, 4));
    sim.world.set(WorldPos::new(40, 40, 40), make_transformer(Direction::PosX, 0));
    sim.mark_dirty(WorldPos::new(40, 40, 40));
    let _ = sim.step_cells(2);
    assert_eq!(sim.world.get(WorldPos::new(40, 40, 40)).state, 4);
    assert_eq!(sim.dirty_queue_len(), 0);
    let cells = sim.world.chunks.iter_non_empty();
    let updates = sim.total_cell_updates;
    let reported = sim.step_cells(100);
    assert!(reported.is_empty());
    assert_eq!(sim.world.chunks.iter_non_empty(), cells);
    assert_eq!(sim.total_cell_updates, updates);
    assert_eq!(sim.dirty_queue_len(), 0);
}

fn no_keys() -> SliceKeys {
    SliceKeys {
        bracket_left: false,
        bracket_right: false,
        page_down: false,
        page_up: false,
        minus: false,
        equal: false,
        ctrl: false,
    }
}

#[test]
fn slice_and_zoom_keys() {
    assert_eq!(slice_step(no_keys()), None);
    assert_eq!(slice_step(SliceKeys { bracket_left: true, ..no_keys() }), Some(-1));
    assert_eq!(slice_step(SliceKeys { page_down: true, ..no_keys() }), Some(-1));
    assert_eq!(slice_step(SliceKeys { minus: true, ..no_keys() }), Some(-1));
    assert_eq!(slice_step(SliceKeys { bracket_right: true, ..no_keys() }), Some(1));
    assert_eq!(slice_step(SliceKeys { page_up: true, ..no_keys() }), Some(1));
    assert_eq!(slice_step(SliceKeys { equal: true, ..no_keys() }), Some(1));
    assert_eq!(slice_step(SliceKeys { bracket_left: true, ctrl: true, ..no_keys() }), None);
    assert_eq!(zoom_step(SliceKeys { bracket_left: true, ctrl: true, ..no_keys() }), Some(-1));
    assert_eq!(zoom_step(SliceKeys { bracket_right: true, ctrl: true, ..no_keys() }), Some(1));
    assert_eq!(zoom_step(SliceKeys { bracket_right: true, ..no_keys() }), None);
}

#[test]
fn chunk_count_tracks_occupied_chunks() {
    let mut map = ChunkMap::new();
    let a = WorldPos::new(100, 200, 300);
    let b = WorldPos::new(101, 200, 300);
    let far = WorldPos::new(400, 10, 10);
    map.set(a, make_generator(10, 1));
    map.set(b, make_generator(10, 2));
    assert_eq!(map.chunk_count(), 1);
    map.set(far, make_generator(10, 3));
    assert_eq!(map.chunk_count(), 2);
    let coords = map.iter_chunks_mut();
    assert_eq!(coords, vec![a.chunk_coord(), far.chunk_coord()]);
    map.set(a, Cell::empty());
    assert_eq!(map.chunk_count(), 2);
    map.set(b, Cell::empty());
    assert_eq!(map.chunk_count(), 1);
    for c in map.iter_chunks_mut() {
        assert!(map.get_chunk_mut(c).is_some());
    }
}
