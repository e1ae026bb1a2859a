use boxes::generator_period;
use boxes::{
    fallback_selection, format_inspector, make_generator, make_transformer, random_selection,
    rebuild_chunks_for_positions, recenter_on_selection, run_sim_tick, seed_demo_world,
    set_selection, should_accumulate_sim_time, slice_depth, ActiveTool, Cell, Direction,
    OrbitAnchor, OrthoView, SelectedCell, SimPlayback, Simulation, ToolState, ViewPose,
    WorldPos, WORLD_SIZE,
};

#[test]
fn inspector_shows_generator_period() {
    let pos = WorldPos::new(1, 2, 3);
    let cell = make_generator(generator_period::STANDARD, 7);
    let text = format_inspector(Some(pos), cell);
    assert!(text.contains("(1, 2, 3)"));
    assert!(text.contains("generator"));
    assert!(text.contains("state: 7"));
    assert!(text.contains("period_ticks: 20"));
}

#[test]
fn inspector_prompt_when_no_pick() {
    let text = format_inspector(None, Cell::empty());
    assert!(text.contains("Inspect a cell"));
}

#[test]
fn inspector_shows_transformer_direction() {
    let cell = make_transformer(Direction::PosZ, 0);
    let text = format_inspector(Some(WorldPos::new(0, 0, 0)), cell);
    assert!(text.contains("input: +Z"));
}

#[test]
fn palette_presets_produce_typed_cells() {
    let tool = ToolState::default();
    let cell = tool.selected_preset().to_cell();
    assert!(!cell.is_empty());
}

#[test]
fn active_tool_labels() {
    assert_eq!(ActiveTool::Place.label(), "Place");
    assert_eq!(ActiveTool::Erase.label(), "Erase");
    assert_eq!(ActiveTool::Inspect.label(), "Inspect");
}

#[test]
fn set_selection_clamps_to_world_bounds() {
    let mut cell = SelectedCell::default();
    set_selection(&mut cell, WorldPos::new(10_000, 10_000, 10_000));
    assert_eq!(cell.pos.x, WORLD_SIZE as u16 - 1);
}

#[test]
fn slice_depth_follows_selection() {
    let selection = SelectedCell {
        pos: WorldPos::new(5, 9, 3),
    };
    assert_eq!(slice_depth(ViewPose::top_default(), &selection), 9);
    assert_eq!(slice_depth(OrthoView::Front.default_pose(), &selection), 3);
}

#[test]
fn random_selection_uses_nonempty_candidate() {
    let mut sim = Simulation::new();
    let pos = WorldPos::new(10, 11, 12);
    sim.world.set(pos, make_generator(20, 0));
    let picked = random_selection(&[pos], &sim);
    assert_eq!(picked, pos);
}

#[test]
fn random_selection_falls_back_when_empty() {
    let sim = Simulation::new();
    let picked = random_selection(&[WorldPos::new(1, 2, 3)], &sim);
    assert_eq!(picked, fallback_selection());
}

#[test]
fn recenter_on_selection_sets_anchor() {
    let selection = SelectedCell {
        pos: WorldPos::new(10, 20, 30),
    };
    let mut anchor = OrbitAnchor {
        pos: WorldPos::new(1, 2, 3),
    };
    recenter_on_selection(&mut anchor, &selection);
    assert_eq!(anchor.pos, selection.pos);
}

#[test]
fn demo_seed_populates_region() {
    let mut sim = Simulation::new();
    seed_demo_world(&mut sim);
    assert!(sim.world.chunks.chunk_count() > 0);
}

#[test]
fn sim_step_produces_dirty_chunks() {
    let mut sim = Simulation::new();
    seed_demo_world(&mut sim);
    let dirty = sim.step(1);
    assert!(sim.tick >= 1);
    let _ = dirty;
}

#[test]
fn queue_rebuild_for_edited_cell() {
    let mut sim = Simulation::new();
    let pos = WorldPos::new(10, 10, 10);

    sim.world.set(pos, make_generator(20, 1));
    let pending = rebuild_chunks_for_positions(&[pos], OrthoView::Top);
    assert!(!pending.is_empty());

    sim.world.set(pos, Cell::empty());
    let pending = rebuild_chunks_for_positions(&[pos], OrthoView::Top);
    assert!(!pending.is_empty());
}

#[test]
fn view_switch_preserves_world_state() {
    let mut sim = Simulation::new();
    seed_demo_world(&mut sim);
    let count_before = sim.world.chunks.chunk_count();

    // View changes are render-only; sim state is unchanged.
    let _views = [OrthoView::Top, OrthoView::Front, OrthoView::Left];
    assert_eq!(sim.world.chunks.chunk_count(), count_before);
}

#[test]
fn paused_playback_does_not_accumulate_time() {
    let playback = SimPlayback {
        paused: true,
        ..Default::default()
    };
    assert!(!should_accumulate_sim_time(&playback));
}

#[test]
fn step_pending_blocks_accumulator() {
    let playback = SimPlayback {
        step_pending: true,
        ..Default::default()
    };
    assert!(!should_accumulate_sim_time(&playback));
}

#[test]
fn run_sim_tick_advances_exactly_one_tick() {
    let mut sim = Simulation::new();
    seed_demo_world(&mut sim);
    let tick_before = sim.tick;

    let _report = run_sim_tick(&mut sim, OrthoView::Top);

    assert_eq!(sim.tick, tick_before + 1);
}
