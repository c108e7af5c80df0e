use boids::agent::Params;
use boids::engine::{
    pace, EngineConfig, EngineState, Pace, Seed, SimulationEngine, StartupError, TickOutcome,
};
use boids::fixed::LIMIT;
use boids::snapshot::{Snapshot, SnapshotStore};
use boids::vec3::Vec3;

fn params() -> Params {
    Params {
        max_speed: 10_000,
        max_force: 10_000,
        perception_radius: 5_000,
        separation_radius: 500,
        separation_weight: 1_000,
        alignment_weight: 1_000,
        cohesion_weight: 1_000,
    }
}

fn seed(x: i64, y: i64, z: i64) -> Seed {
    Seed { position: Vec3::new(x, y, z), velocity: Vec3::zero(), params: params() }
}

fn config(population: i64) -> EngineConfig {
    EngineConfig { population, tick_interval: 100, cell_size: 5_000 }
}

fn triangle() -> SimulationEngine {
    SimulationEngine::new(config(3), &vec![seed(0, 0, 0), seed(1_000, 0, 0), seed(0, 1_000, 0)])
        .unwrap()
}

fn fault(config: EngineConfig, seeds: Vec<Seed>) -> StartupError {
    match SimulationEngine::new(config, &seeds) {
        Ok(_) => panic!("engine was created"),
        Err(e) => e,
    }
}

#[test]
fn new_engine_is_idle_at_tick_zero() {
    let engine = triangle();
    assert_eq!(engine.state(), EngineState::Idle);
    assert_eq!(engine.clock(), 0);
    assert_eq!(engine.population(), 3);
    assert_eq!(engine.snapshot().tick(), 0);
    let agents = engine.snapshot().agents();
    assert_eq!(agents.len(), 3);
    assert_eq!(agents[0].id, 0);
    assert_eq!(agents[1].id, 1);
    assert_eq!(agents[2].id, 2);
    assert_eq!(agents[1].position, Vec3::new(1_000, 0, 0));
    assert_eq!(agents[2].velocity, Vec3::zero());
    assert_eq!(agents[0].params, params());
}

#[test]
fn startup_rejects_empty_or_negative_population() {
    assert_eq!(fault(config(0), Vec::new()), StartupError::InvalidPopulation);
    assert_eq!(fault(config(-3), Vec::new()), StartupError::InvalidPopulation);
    assert_eq!(fault(config(0), vec![seed(0, 0, 0)]), StartupError::InvalidPopulation);
}

#[test]
fn startup_rejects_bad_tick_interval() {
    let mut c = config(1);
    c.tick_interval = 0;
    assert_eq!(fault(c, vec![seed(0, 0, 0)]), StartupError::InvalidTickInterval);
    c.tick_interval = -10;
    assert_eq!(fault(c, vec![seed(0, 0, 0)]), StartupError::InvalidTickInterval);
    c.tick_interval = LIMIT + 1;
    assert_eq!(fault(c, vec![seed(0, 0, 0)]), StartupError::InvalidTickInterval);
}

#[test]
fn startup_rejects_bad_cell_size() {
    let mut c = config(1);
    c.cell_size = 0;
    assert_eq!(fault(c, vec![seed(0, 0, 0)]), StartupError::InvalidCellSize);
    c.cell_size = LIMIT + 1;
    assert_eq!(fault(c, vec![seed(0, 0, 0)]), StartupError::InvalidCellSize);
}

#[test]
fn startup_rejects_seed_count_mismatch() {
    assert_eq!(fault(config(2), vec![seed(0, 0, 0)]), StartupError::SeedCountMismatch);
    assert_eq!(fault(config(1), Vec::new()), StartupError::SeedCountMismatch);
}

#[test]
fn startup_rejects_bad_seed() {
    assert_eq!(fault(config(1), vec![seed(LIMIT + 1, 0, 0)]), StartupError::InvalidSeed);
    let mut s = seed(0, 0, 0);
    s.params.max_speed = -1;
    assert_eq!(fault(config(2), vec![seed(0, 0, 0), s]), StartupError::InvalidSeed);
    let mut t = seed(0, 0, 0);
    t.velocity = Vec3::new(0, 0, -LIMIT - 1);
    assert_eq!(fault(config(1), vec![t]), StartupError::InvalidSeed);
}

#[test]
fn startup_reports_first_fault() {
    let mut c = config(0);
    c.tick_interval = 0;
    c.cell_size = 0;
    assert_eq!(fault(c, Vec::new()), StartupError::InvalidPopulation);
    c.population = 1;
    assert_eq!(fault(c, Vec::new()), StartupError::InvalidTickInterval);
    c.tick_interval = 5;
    assert_eq!(fault(c, Vec::new()), StartupError::InvalidCellSize);
}

#[test]
fn idle_engine_does_not_tick() {
    let mut engine = triangle();
    let mut store = SnapshotStore::new();
    assert_eq!(engine.tick(&mut store), TickOutcome::NotRunning);
    assert_eq!(engine.advance(), TickOutcome::NotRunning);
    assert_eq!(engine.clock(), 0);
    assert_eq!(engine.state(), EngineState::Idle);
    assert!(store.current().is_none());
}

#[test]
fn start_publishes_tick_zero() {
    let mut engine = triangle();
    let mut store = SnapshotStore::new();
    assert!(store.current().is_none());
    assert!(engine.start(&mut store));
    assert_eq!(engine.state(), EngineState::Running);
    let held = store.current().unwrap();
    assert_eq!(held.tick(), 0);
    assert_eq!(held.len(), 3);
    assert_eq!(held.agents()[1].position, Vec3::new(1_000, 0, 0));
    assert!(!engine.start(&mut store));
    assert_eq!(engine.state(), EngineState::Running);
}

#[test]
fn one_tick_of_the_triangle() {
    let mut engine = triangle();
    let mut store = SnapshotStore::new();
    engine.start(&mut store);
    assert_eq!(engine.tick(&mut store), TickOutcome::Published);
    assert_eq!(engine.clock(), 1);
    let held = store.current().unwrap();
    assert_eq!(held.tick(), 1);
    let agents = held.agents();
    assert_eq!(agents.len(), 3);
    // the agent at the origin is pulled toward the centroid (333, 333, 0)
    assert_eq!(agents[0].velocity, Vec3::new(33, 33, 0));
    assert_eq!(agents[0].position, Vec3::new(3, 3, 0));
    assert!(agents[0].velocity.x > 0 && agents[0].velocity.y > 0 && agents[0].velocity.z == 0);
    assert_eq!(agents[1].velocity, Vec3::new(-66, 33, 0));
    assert_eq!(agents[1].position, Vec3::new(994, 3, 0));
    assert_eq!(agents[2].velocity, Vec3::new(33, -66, 0));
    assert_eq!(agents[2].position, Vec3::new(3, 994, 0));
    assert_eq!(engine.snapshot().agents(), held.agents());
}

#[test]
fn ticks_keep_the_population() {
    let mut seeds = Vec::new();
    let mut i: i64 = 0;
    while i < 25 {
        let mut s = seed((i % 5) * 300, (i / 5) * 300, (i * 37) % 200);
        s.velocity = Vec3::new((i * 13) % 90 - 45, (i * 7) % 90 - 45, 0);
        seeds.push(s);
        i += 1;
    }
    let mut c = config(25);
    c.cell_size = 800;
    let mut engine = SimulationEngine::new(c, &seeds).unwrap();
    let mut store = SnapshotStore::new();
    engine.start(&mut store);
    let mut t: u64 = 1;
    while t <= 20 {
        assert_eq!(engine.tick(&mut store), TickOutcome::Published);
        let held = store.current().unwrap();
        assert_eq!(held.tick(), t);
        assert_eq!(held.len(), 25);
        assert_eq!(engine.population(), 25);
        for (k, a) in held.agents().iter().enumerate() {
            assert_eq!(a.id, k as u64);
            assert_eq!(a.params, params());
            let v = a.velocity;
            assert!(v.x * v.x + v.y * v.y + v.z * v.z <= 10_000 * 10_000);
        }
        t += 1;
    }
}

#[test]
fn population_of_one_ticks() {
    let mut s = seed(10, 20, 30);
    s.velocity = Vec3::new(1_000, 0, 0);
    let mut engine = SimulationEngine::new(config(1), &vec![s]).unwrap();
    let mut store = SnapshotStore::new();
    engine.start(&mut store);
    assert_eq!(engine.tick(&mut store), TickOutcome::Published);
    let a = store.current().unwrap().agents()[0];
    assert_eq!(a.id, 0);
    assert_eq!(a.velocity, Vec3::new(1_000, 0, 0));
    assert_eq!(a.position, Vec3::new(110, 20, 30));
}

#[test]
fn corrupted_tick_keeps_the_snapshot() {
    let mut runaway = seed(LIMIT - 50, 0, 0);
    runaway.velocity = Vec3::new(1_000, 0, 0);
    let mut engine = SimulationEngine::new(config(2), &vec![seed(0, 0, 0), runaway]).unwrap();
    let mut store = SnapshotStore::new();
    engine.start(&mut store);
    // first tick: the runaway moves by 100 and leaves the finite range
    assert_eq!(engine.tick(&mut store), TickOutcome::Corrupted);
    assert_eq!(engine.clock(), 1);
    assert_eq!(engine.state(), EngineState::Running);
    let held = store.current().unwrap();
    assert_eq!(held.tick(), 0);
    assert_eq!(held.len(), 2);
    assert_eq!(held.agents()[0].position, Vec3::new(0, 0, 0));
    assert_eq!(held.agents()[1].position, Vec3::new(LIMIT - 50, 0, 0));
    assert_eq!(engine.snapshot().tick(), 0);
    assert_eq!(engine.tick(&mut store), TickOutcome::Corrupted);
    assert_eq!(engine.clock(), 2);
    assert_eq!(store.current().unwrap().tick(), 0);
}

#[test]
fn published_tick_never_decreases() {
    let mut drifter = seed(LIMIT - 250, 0, 0);
    drifter.velocity = Vec3::new(1_000, 0, 0);
    drifter.params.perception_radius = 0;
    let mut engine = SimulationEngine::new(config(2), &vec![seed(0, 0, 0), drifter]).unwrap();
    let mut store = SnapshotStore::new();
    engine.start(&mut store);
    let mut seen: u64 = store.current().unwrap().tick();
    let mut outcomes = Vec::new();
    let mut k = 0;
    while k < 6 {
        outcomes.push(engine.tick(&mut store));
        let now = store.current().unwrap().tick();
        assert!(now >= seen);
        assert!(now <= engine.clock());
        seen = now;
        k += 1;
    }
    // the drifter reaches the edge of the range after two ticks, then every tick is corrupted
    assert_eq!(
        outcomes,
        vec![
            TickOutcome::Published,
            TickOutcome::Published,
            TickOutcome::Corrupted,
            TickOutcome::Corrupted,
            TickOutcome::Corrupted,
            TickOutcome::Corrupted
        ]
    );
    assert_eq!(seen, 2);
    assert_eq!(engine.clock(), 6);
}

#[test]
fn stopped_engine_does_not_tick() {
    let mut engine = triangle();
    let mut store = SnapshotStore::new();
    engine.start(&mut store);
    assert_eq!(engine.tick(&mut store), TickOutcome::Published);
    engine.stop();
    assert_eq!(engine.state(), EngineState::Stopped);
    assert_eq!(engine.tick(&mut store), TickOutcome::NotRunning);
    assert_eq!(engine.clock(), 1);
    assert_eq!(store.current().unwrap().tick(), 1);
    assert!(!engine.start(&mut store));
    assert_eq!(engine.state(), EngineState::Stopped);
}

#[test]
fn stop_before_start_is_final() {
    let mut engine = triangle();
    let mut store = SnapshotStore::new();
    engine.stop();
    assert_eq!(engine.state(), EngineState::Stopped);
    assert!(!engine.start(&mut store));
    assert!(store.current().is_none());
}

#[test]
fn advance_does_not_publish() {
    let mut engine = triangle();
    let mut store = SnapshotStore::new();
    engine.start(&mut store);
    assert_eq!(engine.advance(), TickOutcome::Published);
    assert_eq!(engine.snapshot().tick(), 1);
    assert_eq!(store.current().unwrap().tick(), 0);
    store.publish(engine.snapshot().duplicate());
    assert_eq!(store.current().unwrap().tick(), 1);
}

#[test]
fn snapshot_wants_ascending_identities() {
    let engine = triangle();
    let agents = engine.snapshot().agents().clone();
    assert!(Snapshot::new(5, agents.clone()).is_some());
    let mut swapped = agents.clone();
    swapped.swap(0, 1);
    assert!(Snapshot::new(5, swapped).is_none());
    let mut twice = agents.clone();
    twice[2].id = 1;
    assert!(Snapshot::new(5, twice).is_none());
    assert!(Snapshot::new(9, Vec::new()).is_some());
    let s = Snapshot::new(5, agents).unwrap();
    assert_eq!(s.tick(), 5);
    assert_eq!(s.len(), 3);
    let copy = s.duplicate();
    assert_eq!(copy.tick(), 5);
    assert_eq!(copy.agents(), s.agents());
}

#[test]
fn store_replaces_what_it_holds() {
    let engine = triangle();
    let agents = engine.snapshot().agents().clone();
    let mut store = SnapshotStore::new();
    assert!(store.current().is_none());
    store.publish(Snapshot::new(3, agents.clone()).unwrap());
    assert_eq!(store.current().unwrap().tick(), 3);
    store.publish(Snapshot::new(4, Vec::new()).unwrap());
    assert_eq!(store.current().unwrap().tick(), 4);
    assert_eq!(store.current().unwrap().len(), 0);
}

#[test]
fn engine_reports_its_configuration() {
    let engine = triangle();
    assert_eq!(engine.tick_interval(), 100);
    assert_eq!(engine.cell_size(), 5_000);
}

#[test]
fn pace_rests_or_reports_a_miss() {
    assert_eq!(pace(16, 0), Pace::Rest { remaining: 16 });
    assert_eq!(pace(16, 10), Pace::Rest { remaining: 6 });
    assert_eq!(pace(16, 16), Pace::Rest { remaining: 0 });
    assert_eq!(pace(16, 17), Pace::DeadlineMissed { overrun: 1 });
    assert_eq!(pace(16, 100), Pace::DeadlineMissed { overrun: 84 });
    assert_eq!(pace(0, u64::MAX), Pace::DeadlineMissed { overrun: u64::MAX });
}
