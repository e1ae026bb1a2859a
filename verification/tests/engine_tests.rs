use boxes::generator_period::{FAST, STANDARD};
use boxes::{
    make_aggregator, make_generator, make_transformer, CellEngine, Direction, ReduceMode,
    SimHooks, Simulation, WorldPos, PHASE_COUNT, TYPE_GENERATOR,
};

fn origin() -> WorldPos {
    WorldPos::new(50, 50, 50)
}

fn pos_with_phase(target: u8) -> WorldPos {
    for x in 0..16u16 {
        for y in 0..8u16 {
            let z = (target as u16 + PHASE_COUNT as u16 - ((x + y) % PHASE_COUNT as u16))
                % PHASE_COUNT as u16;
            let pos = WorldPos::new(x, y, z);
            if pos.phase() == target {
                return pos;
            }
        }
    }
    panic!("no position for phase {target}");
}

#[test]
fn generator_fires_on_correct_phased_ticks() {
    for phase_id in 0..PHASE_COUNT {
        let pos = pos_with_phase(phase_id);
        let period = 10u32;
        let mut sim = Simulation::new();
        sim.world.set(pos, make_generator(period, 0));

        let mut fires = 0u16;
        for tick in 0..period {
            sim.tick = u64::from(tick);
            let mut engine = CellEngine::new();
            engine.on_phase_tick(&mut sim, u64::from(tick), phase_id);
            let state = sim.world.get(pos).state;
            fires = fires.max(state);
        }

        assert_eq!(fires, 1, "phase {phase_id} should fire exactly once per period");
    }
}

#[test]
fn generator_stagger_spreads_load() {
    let period = STANDARD;
    let mut sim = Simulation::new();
    for phase_id in 0..PHASE_COUNT {
        let pos = pos_with_phase(phase_id);
        sim.world.set(pos, make_generator(period, 0));
    }

    let mut engine = CellEngine::new();
    engine.on_phase_tick(&mut sim, 0, 0);
    let fired_at_t0 = sim
        .world
        .chunks
        .iter_non_empty()
        .into_iter()
        .filter(|(_, cell)| cell.type_id == TYPE_GENERATOR && cell.state > 0)
        .count();
    assert_eq!(fired_at_t0, 1, "only phase-0 bucket fires on tick 0");
}

#[test]
fn transformer_copies_input_neighbor_after_source_changes() {
    let mut sim = Simulation::new();
    let source = WorldPos::new(origin().x + 1, origin().y, origin().z);
    let sink = origin();

    sim.world.set(source, make_generator(FAST, 10));
    sim.world.set(sink, make_transformer(Direction::PosX, 0));
    sim.mark_dirty(sink);
    let _ = sim.step_cells(1);
    assert_eq!(sim.world.get(sink).state, 10);

    sim.world.set_typed(source, TYPE_GENERATOR, 42);
    CellEngine::propagate_to_listeners(&mut sim, source);
    let _ = sim.step_cells(1);
    assert_eq!(sim.world.get(sink).state, 42);
}

#[test]
fn transformer_stable_when_input_unchanged() {
    let mut sim = Simulation::new();
    let source = WorldPos::new(origin().x + 1, origin().y, origin().z);
    let sink = origin();

    sim.world.set(source, make_generator(10_000, 5));
    sim.world.set(sink, make_transformer(Direction::PosX, 0));
    CellEngine::propagate_to_listeners(&mut sim, source);
    let _ = sim.step_cells(1);
    assert_eq!(sim.world.get(sink).state, 5);

    let updates_before = sim.total_cell_updates;
    let _ = sim.step_cells(5);
    assert_eq!(sim.world.get(sink).state, 5);
    assert_eq!(sim.total_cell_updates, updates_before);
}

#[test]
fn aggregator_sums_neighbors() {
    let mut sim = Simulation::new();
    let center = origin();
    sim.world.set(center, make_aggregator(ReduceMode::Sum, 0));

    let neighbors = [
        WorldPos::new(center.x + 1, center.y, center.z),
        WorldPos::new(center.x - 1, center.y, center.z),
    ];
    for (idx, pos) in neighbors.iter().enumerate() {
        sim.world.set(*pos, make_generator(10_000, (idx as u16 + 1) * 10));
    }

    CellEngine::propagate_to_listeners(&mut sim, neighbors[0]);
    let _ = sim.step_cells(1);
    assert_eq!(sim.world.get(center).state, 10 + 20);
}

#[test]
fn aggregator_max_mode() {
    let mut sim = Simulation::new();
    let center = origin();
    sim.world.set(center, make_aggregator(ReduceMode::Max, 0));

    sim.world.set(
        WorldPos::new(center.x + 1, center.y, center.z),
        make_generator(10_000, 3),
    );
    sim.world.set(
        WorldPos::new(center.x - 1, center.y, center.z),
        make_generator(10_000, 9),
    );

    CellEngine::propagate_to_listeners(&mut sim, WorldPos::new(center.x + 1, center.y, center.z));
    let _ = sim.step_cells(1);
    assert_eq!(sim.world.get(center).state, 9);
}

#[test]
fn no_infinite_dirty_loop_on_stable_configuration() {
    let mut sim = Simulation::new();
    let source = WorldPos::new(origin().x + 1, origin().y, origin().z);
    let transformer = origin();

    sim.world.set(source, make_generator(10_000, 4));
    sim.world.set(transformer, make_transformer(Direction::PosX, 0));

    CellEngine::propagate_to_listeners(&mut sim, source);
    let _ = sim.step_cells(1);
    assert_eq!(sim.world.get(transformer).state, 4);

    let queue_len = sim.dirty_queue_len();
    let _ = sim.step_cells(50);
    assert_eq!(sim.dirty_queue_len(), queue_len);
    assert_eq!(sim.world.get(transformer).state, 4);
}

#[test]
fn updates_scale_with_activity_not_population() {
    let mut sim = Simulation::new();
    for i in 0..500u16 {
        let pos = WorldPos::new(origin().x + i % 50, origin().y + i / 50, origin().z);
        sim.world.set(pos, make_transformer(Direction::PosX, 0));
    }

    sim.total_cell_updates = 0;
    let _ = sim.step_cells(20);
    assert_eq!(sim.total_cell_updates, 0);

    sim.world.set(
        WorldPos::new(origin().x, origin().y + 1, origin().z),
        make_generator(FAST, 0),
    );
    let before = sim.total_cell_updates;
    let _ = sim.step_cells(20);
    let active = sim.total_cell_updates - before;
    assert!(active > 0);
    assert!(active <= 4);
}

#[test]
fn transformer_chain_in_3x3_fixture() {
    let mut sim = Simulation::new();
    let base = WorldPos::new(10, 10, 10);
    let mid = WorldPos::new(11, 10, 10);
    let end = WorldPos::new(12, 10, 10);

    sim.world.set(base, make_generator(10_000, 0));
    sim.world.set(mid, make_transformer(Direction::NegX, 0));
    sim.world.set(end, make_transformer(Direction::NegX, 0));

    sim.world.set_typed(base, TYPE_GENERATOR, 1);
    CellEngine::propagate_to_listeners(&mut sim, base);
    let _ = sim.step_cells(1);
    assert_eq!(sim.world.get(base).state, 1);
    assert_eq!(sim.world.get(mid).state, 1);
    // Dirty drain can walk the chain within a single tick when budgets allow.
    assert_eq!(sim.world.get(end).state, 1);

    let updates_before = sim.total_cell_updates;
    let _ = sim.step_cells(10);
    assert_eq!(sim.world.get(end).state, 1);
    assert_eq!(sim.total_cell_updates, updates_before);
}
