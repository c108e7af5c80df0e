use boids::agent::Params;
use boids::engine::{EngineConfig, Seed, SimulationEngine, TickOutcome};
use boids::server::{
    parse_filter, select, Boid, BoidRequest, BoidServer, Fault, Filter, RawFilter, StatusKind,
    FILTER_ID_RANGE, FILTER_REGION,
};
use boids::vec3::Vec3;

fn params() -> Params {
    Params {
        max_speed: 10_000,
        max_force: 10_000,
        perception_radius: 5_000,
        separation_radius: 500,
        separation_weight: 1_000,
        alignment_weight: 1_000,
        cohesion_weight: 1_000,
    }
}

fn seed(x: i64, y: i64, z: i64) -> Seed {
    Seed { position: Vec3::new(x, y, z), velocity: Vec3::zero(), params: params() }
}

fn triangle() -> SimulationEngine {
    let config = EngineConfig { population: 3, tick_interval: 100, cell_size: 5_000 };
    SimulationEngine::new(config, &vec![seed(0, 0, 0), seed(1_000, 0, 0), seed(0, 1_000, 0)])
        .unwrap()
}

fn all() -> BoidRequest {
    BoidRequest { filter: None }
}

fn by_id(first: u64, last: u64) -> BoidRequest {
    BoidRequest {
        filter: Some(RawFilter {
            kind: FILTER_ID_RANGE,
            first_id: first,
            last_id: last,
            low: Vec3::zero(),
            high: Vec3::zero(),
        }),
    }
}

fn by_region(low: Vec3, high: Vec3) -> BoidRequest {
    BoidRequest {
        filter: Some(RawFilter { kind: FILTER_REGION, first_id: 0, last_id: 0, low, high }),
    }
}

fn running() -> BoidServer {
    let mut engine = triangle();
    let mut server = BoidServer::new();
    assert!(engine.start(&mut server.store));
    server
}

#[test]
fn unavailable_before_start() {
    let server = BoidServer::new();
    let status = server.get_boid(&all()).unwrap_err();
    assert_eq!(status.kind, StatusKind::Unavailable);
    assert_eq!(status.message, "simulation has not started");
    let status = BoidServer::default().get_boid(&by_id(0, 5)).unwrap_err();
    assert_eq!(status.kind, StatusKind::Unavailable);
}

#[test]
fn tick_zero_is_served_once_running() {
    let mut engine = triangle();
    let mut server = BoidServer::new();
    engine.start(&mut server.store);
    let found = server.get_boid(&all()).unwrap();
    assert_eq!(
        found.boids,
        vec![
            Boid { id: 0, position: Vec3::new(0, 0, 0), velocity: Vec3::zero() },
            Boid { id: 1, position: Vec3::new(1_000, 0, 0), velocity: Vec3::zero() },
            Boid { id: 2, position: Vec3::new(0, 1_000, 0), velocity: Vec3::zero() },
        ]
    );
    assert_eq!(server.store.current().unwrap().tick(), 0);
}

#[test]
fn answer_follows_the_ticks() {
    let mut engine = triangle();
    let mut server = BoidServer::new();
    engine.start(&mut server.store);
    assert_eq!(engine.tick(&mut server.store), TickOutcome::Published);
    let found = server.get_boid(&all()).unwrap();
    assert_eq!(found.boids.len(), 3);
    assert_eq!(
        found.boids[0],
        Boid { id: 0, position: Vec3::new(3, 3, 0), velocity: Vec3::new(33, 33, 0) }
    );
    assert_eq!(found.boids[1].id, 1);
    assert_eq!(found.boids[2].id, 2);
}

#[test]
fn id_range_that_matches_nothing_is_empty() {
    let server = running();
    let found = server.get_boid(&by_id(100, 200)).unwrap();
    assert_eq!(found.boids, Vec::<Boid>::new());
    let found = server.get_boid(&by_id(3, u64::MAX)).unwrap();
    assert!(found.boids.is_empty());
}

#[test]
fn id_range_selects_in_order() {
    let server = running();
    let found = server.get_boid(&by_id(1, 2)).unwrap();
    assert_eq!(found.boids.len(), 2);
    assert_eq!(found.boids[0].id, 1);
    assert_eq!(found.boids[1].id, 2);
    let found = server.get_boid(&by_id(0, 0)).unwrap();
    assert_eq!(found.boids.len(), 1);
    assert_eq!(found.boids[0].id, 0);
    let found = server.get_boid(&by_id(2, 900)).unwrap();
    assert_eq!(found.boids.len(), 1);
    assert_eq!(found.boids[0].position, Vec3::new(0, 1_000, 0));
}

#[test]
fn malformed_id_range_is_invalid() {
    let server = running();
    let status = server.get_boid(&by_id(5, 4)).unwrap_err();
    assert_eq!(status.kind, StatusKind::InvalidRequest);
    assert_eq!(status.message, "filter bounds out of order");
}

#[test]
fn unrecognized_filter_is_invalid() {
    let server = running();
    for kind in [0u32, 3, 77, u32::MAX] {
        let mut request = by_id(0, 10);
        request.filter.as_mut().unwrap().kind = kind;
        let status = server.get_boid(&request).unwrap_err();
        assert_eq!(status.kind, StatusKind::InvalidRequest);
        assert_eq!(status.message, "unrecognized filter kind");
    }
}

#[test]
fn invalid_request_comes_before_unavailable() {
    let server = BoidServer::new();
    assert_eq!(server.get_boid(&by_id(9, 1)).unwrap_err().kind, StatusKind::InvalidRequest);
}

#[test]
fn region_selects_by_position() {
    let server = running();
    let found = server.get_boid(&by_region(Vec3::new(-5, -5, -5), Vec3::new(1_000, 5, 5))).unwrap();
    assert_eq!(found.boids.len(), 2);
    assert_eq!(found.boids[0].id, 0);
    assert_eq!(found.boids[1].id, 1);
    let found = server.get_boid(&by_region(Vec3::new(1, 1, 1), Vec3::new(2, 2, 2))).unwrap();
    assert!(found.boids.is_empty());
    let point = server.get_boid(&by_region(Vec3::new(0, 1_000, 0), Vec3::new(0, 1_000, 0))).unwrap();
    assert_eq!(point.boids.len(), 1);
    assert_eq!(point.boids[0].id, 2);
}

#[test]
fn malformed_region_is_invalid() {
    let server = running();
    for (low, high) in [
        (Vec3::new(1, 0, 0), Vec3::new(0, 0, 0)),
        (Vec3::new(0, 1, 0), Vec3::new(5, 0, 5)),
        (Vec3::new(0, 0, 1), Vec3::new(5, 5, 0)),
    ] {
        let status = server.get_boid(&by_region(low, high)).unwrap_err();
        assert_eq!(status.kind, StatusKind::InvalidRequest);
    }
}

#[test]
fn filters_parse() {
    assert_eq!(parse_filter(&all()), Ok(Filter::All));
    assert_eq!(parse_filter(&by_id(2, 7)), Ok(Filter::IdRange { first: 2, last: 7 }));
    assert_eq!(parse_filter(&by_id(7, 7)), Ok(Filter::IdRange { first: 7, last: 7 }));
    assert_eq!(parse_filter(&by_id(7, 2)), Err(Fault::MalformedFilter));
    assert_eq!(
        parse_filter(&by_region(Vec3::new(-1, -2, -3), Vec3::new(1, 2, 3))),
        Ok(Filter::Region { low: Vec3::new(-1, -2, -3), high: Vec3::new(1, 2, 3) })
    );
    let mut odd = by_id(0, 1);
    odd.filter.as_mut().unwrap().kind = 9;
    assert_eq!(parse_filter(&odd), Err(Fault::UnrecognizedFilter));
}

#[test]
fn faults_map_to_statuses() {
    assert_eq!(Fault::UnrecognizedFilter.status().kind, StatusKind::InvalidRequest);
    assert_eq!(Fault::MalformedFilter.status().kind, StatusKind::InvalidRequest);
    assert_eq!(Fault::NotStarted.status().kind, StatusKind::Unavailable);
    assert_ne!(StatusKind::Internal, StatusKind::Unavailable);
}

#[test]
fn select_reads_a_snapshot() {
    let engine = triangle();
    let picked = select(engine.snapshot(), &Filter::IdRange { first: 1, last: 1 });
    assert_eq!(picked, vec![Boid { id: 1, position: Vec3::new(1_000, 0, 0), velocity: Vec3::zero() }]);
    assert!(Filter::All.admits(&engine.snapshot().agents()[0]));
    assert!(!Filter::IdRange { first: 1, last: 2 }.admits(&engine.snapshot().agents()[0]));
}
