use boxes::{
    cell_at, local_index, phase, world_pos_from_local, Cell, Simulation, SimHooks, World,
    WorldPos, PHASE_COUNT,
};

struct RecordingHooks {
    dirty_calls: u32,
    phase_calls: u32,
}

impl SimHooks for RecordingHooks {
    fn on_dirty_cell(&mut self, _sim: &mut Simulation, _pos: WorldPos) {
        self.dirty_calls += 1;
    }

    fn on_phase_tick(&mut self, _sim: &mut Simulation, _tick: u64, _phase: u8) {
        self.phase_calls += 1;
    }
}

#[test]
fn phase_matches_formula() {
    assert_eq!(phase(0, 0, 0), 0);
    assert_eq!(phase(1, 1, 1), 3);
    assert_eq!(phase(7, 7, 7), 5);
    assert_eq!(WorldPos::new(10, 20, 30).phase(), phase(10, 20, 30));
}

#[test]
fn step_advances_tick_deterministically() {
    let mut sim = Simulation::new();
    sim.mark_dirty(WorldPos::new(1, 2, 3));
    let _ = sim.step(1);
    assert_eq!(sim.tick, 1);
    let tick_after = sim.tick;
    let _ = sim.step(0);
    assert_eq!(sim.tick, tick_after);
}

#[test]
fn step_invokes_hooks() {
    let mut sim = Simulation::new();
    let pos = WorldPos::new(5, 5, 5);
    sim.world.set_typed(pos, 1, 0);
    sim.mark_dirty(pos);

    let mut hooks = RecordingHooks {
        dirty_calls: 0,
        phase_calls: 0,
    };
    let dirty = sim.step_with_hooks(1, &mut hooks);

    assert_eq!(hooks.dirty_calls, 1);
    assert_eq!(hooks.phase_calls, u32::from(PHASE_COUNT));
    assert!(dirty.contains(&pos.chunk_coord()));
}

#[test]
fn dirty_propagation_stub_enqueues_neighbors() {
    let mut sim = Simulation::new();
    let center = WorldPos::new(10, 10, 10);
    let neighbor = WorldPos::new(11, 10, 10);

    sim.world.set_typed(center, 1, 0);
    sim.world.set_typed(neighbor, 2, 0);
    sim.mark_dirty(center);

    let mut hooks = RecordingHooks {
        dirty_calls: 0,
        phase_calls: 0,
    };
    let _ = sim.step_with_hooks(1, &mut hooks);

    // Center drains first; propagation reaches the neighbor, which drains in the same tick.
    assert_eq!(hooks.dirty_calls, 2);
}

#[test]
fn step_returns_dirty_chunks() {
    let mut sim = Simulation::new();
    let pos = WorldPos::new(64, 64, 64);
    sim.world.set(
        pos,
        Cell {
            type_id: 1,
            flags: 0,
            state: 1,
            reserved: 0,
        },
    );
    sim.mark_dirty(pos);

    let dirty = sim.step(1);
    assert_eq!(dirty, vec![pos.chunk_coord()]);
}

#[test]
fn benchmark_stub_one_million_writes_and_thousand_ticks() {
    let mut sim = Simulation::new();

    for i in 0..1_000_000u32 {
        let x = (i % 500) as u16;
        let y = ((i / 500) % 500) as u16;
        let z = ((i / 250_000) % 500) as u16;
        sim.world.set_typed(WorldPos::new(x, y, z), 1, (i % 65536) as u16);
    }

    let dirty = sim.step(1000);
    assert_eq!(sim.tick, 1000);
    // Chunks were allocated; stepping may report none without dirty queue input.
    let _ = dirty;
    assert!(sim.world.chunks.chunk_count() > 0);
}

#[test]
fn sparse_allocation() {
    let mut world = World::new();
    assert_eq!(world.chunks.chunk_count(), 0);

    let pos = WorldPos::new(100, 200, 300);
    assert!(world.get(pos).is_empty());

    world.set_typed(pos, 1, 42);
    assert_eq!(world.chunks.chunk_count(), 1);
    assert_eq!(world.get(pos).type_id, 1);
    assert_eq!(world.get(pos).state, 42);

    world.set(pos, Cell::empty());
    assert_eq!(world.chunks.chunk_count(), 0);
}

#[test]
fn chunk_boundary_neighbors_readable() {
    let mut world = World::new();
    // Chunk boundary at x = 31 / 32.
    let a = WorldPos::new(31, 0, 0);
    let b = WorldPos::new(32, 0, 0);
    world.set_typed(a, 1, 1);
    world.set_typed(b, 2, 2);

    assert_eq!(world.get(a).type_id, 1);
    assert_eq!(world.get(b).type_id, 2);
    assert_ne!(a.chunk_coord(), b.chunk_coord());

    let chunk_a = world.chunks.get_chunk(a.chunk_coord()).unwrap();
    assert_eq!(cell_at(chunk_a, a).type_id, 1);
}

#[test]
fn local_index_round_trip() {
    let pos = WorldPos::new(33, 65, 97);
    let chunk = pos.chunk_coord();
    let local = local_index(pos.x, pos.y, pos.z);
    let rebuilt = world_pos_from_local(chunk, local);
    assert_eq!(pos, rebuilt);
}
