use boids::agent::{Agent, Params};
use boids::fixed::LIMIT;
use boids::grid::SpatialIndex;
use boids::vec3::Vec3;

fn plain() -> Params {
    Params {
        max_speed: 1_000,
        max_force: 1_000,
        perception_radius: 1_000,
        separation_radius: 100,
        separation_weight: 1_000,
        alignment_weight: 1_000,
        cohesion_weight: 1_000,
    }
}

fn at(id: u64, x: i64, y: i64, z: i64) -> Agent {
    Agent { id, position: Vec3::new(x, y, z), velocity: Vec3::zero(), params: plain() }
}

fn dist2(a: Vec3, b: Vec3) -> i128 {
    let dx = a.x as i128 - b.x as i128;
    let dy = a.y as i128 - b.y as i128;
    let dz = a.z as i128 - b.z as i128;
    dx * dx + dy * dy + dz * dz
}

fn next(seed: &mut u64) -> u64 {
    *seed = seed.wrapping_mul(6364136223846793005).wrapping_add(1442695040888963407);
    *seed >> 24
}

fn scatter(seed: &mut u64, n: usize, spread: i64) -> Vec<Agent> {
    let mut agents = Vec::new();
    for i in 0..n {
        let x = (next(seed) % (2 * spread as u64 + 1)) as i64 - spread;
        let y = (next(seed) % (2 * spread as u64 + 1)) as i64 - spread;
        let z = (next(seed) % (2 * spread as u64 + 1)) as i64 - spread;
        agents.push(at(1000 + i as u64, x, y, z));
    }
    agents
}

fn check_query(agents: &Vec<Agent>, index: &SpatialIndex, cell: i64, p: Vec3, r: i64) {
    let ids = index.neighbors(p, r);
    let reach = r as i128 + cell as i128;
    for a in agents.iter() {
        let d = dist2(a.position, p);
        let listed = ids.iter().filter(|id| **id == a.id).count();
        assert!(listed <= 1, "agent listed twice");
        if r >= 0 && d <= (r as i128) * (r as i128) {
            assert_eq!(listed, 1, "agent within the radius was left out");
        }
        if r < 0 || d > reach * reach {
            assert_eq!(listed, 0, "agent too far away was listed");
        }
    }
    for id in ids.iter() {
        assert!(agents.iter().any(|a| a.id == *id));
    }
}

#[test]
fn empty_index_answers_nothing() {
    let index = SpatialIndex::build(&Vec::new(), 1_000).unwrap();
    assert_eq!(index.len(), 0);
    assert_eq!(index.neighbors(Vec3::new(0, 0, 0), 5_000), Vec::<u64>::new());
    assert_eq!(index.neighbors(Vec3::new(-77, 12, 9_000), 0), Vec::<u64>::new());
    assert_eq!(index.candidates(Vec3::new(1, 2, 3), 10), Vec::<usize>::new());
}

#[test]
fn build_rejects_bad_cell_size() {
    let agents = vec![at(0, 0, 0, 0)];
    assert!(SpatialIndex::build(&agents, 0).is_none());
    assert!(SpatialIndex::build(&agents, -5).is_none());
    assert!(SpatialIndex::build(&agents, LIMIT + 1).is_none());
    assert!(SpatialIndex::build(&agents, 1).is_some());
    assert!(SpatialIndex::build(&agents, LIMIT).is_some());
}

#[test]
fn build_rejects_position_out_of_range() {
    assert!(SpatialIndex::build(&vec![at(0, 0, 0, 0), at(1, LIMIT + 1, 0, 0)], 100).is_none());
    assert!(SpatialIndex::build(&vec![at(0, 0, -LIMIT - 1, 0)], 100).is_none());
    assert!(SpatialIndex::build(&vec![at(0, LIMIT, -LIMIT, LIMIT)], 100).is_some());
}

#[test]
fn neighbors_of_three_agents() {
    let agents = vec![at(0, 0, 0, 0), at(1, 1_000, 0, 0), at(2, 0, 1_000, 0)];
    let index = SpatialIndex::build(&agents, 5_000).unwrap();
    assert_eq!(index.len(), 3);
    assert_eq!(index.neighbors(Vec3::new(0, 0, 0), 5_000), vec![0, 1, 2]);
    assert_eq!(index.candidates(Vec3::new(0, 0, 0), 5_000), vec![0, 1, 2]);
}

#[test]
fn neighbors_come_cell_by_cell() {
    // cells of edge 100: ids 7 and 9 share cell (0,0,0), id 8 is in (-1,0,0), id 5 in (1,0,0)
    let agents = vec![at(7, 10, 10, 10), at(8, -10, 10, 10), at(9, 90, 90, 90), at(5, 110, 0, 0)];
    let index = SpatialIndex::build(&agents, 100).unwrap();
    assert_eq!(index.neighbors(Vec3::new(50, 50, 50), 100), vec![8, 7, 9, 5]);
    assert_eq!(index.candidates(Vec3::new(50, 50, 50), 100), vec![1, 0, 2, 3]);
}

#[test]
fn neighbors_drops_points_beyond_radius_plus_cell() {
    let agents = vec![at(1, 0, 0, 0), at(2, 199, 0, 0), at(3, 150, 0, 0)];
    let index = SpatialIndex::build(&agents, 100).unwrap();
    // radius 10: agents farther than 110 are dropped though their cell is walked
    assert_eq!(index.neighbors(Vec3::new(50, 0, 0), 10), vec![1, 3]);
    assert_eq!(index.neighbors(Vec3::new(50, 0, 0), 49), vec![1, 2, 3]);
}

#[test]
fn negative_radius_finds_nothing() {
    let agents = vec![at(1, 0, 0, 0)];
    let index = SpatialIndex::build(&agents, 100).unwrap();
    assert_eq!(index.neighbors(Vec3::new(0, 0, 0), -1), Vec::<u64>::new());
    assert_eq!(index.neighbors(Vec3::new(0, 0, 0), 0), vec![1]);
}

#[test]
fn negative_and_zero_coordinates() {
    let agents = vec![
        at(1, -1, -1, -1),
        at(2, 0, 0, 0),
        at(3, -100, -100, -100),
        at(4, -101, 0, 0),
        at(5, 99, 99, 99),
    ];
    let index = SpatialIndex::build(&agents, 100).unwrap();
    check_query(&agents, &index, 100, Vec3::new(0, 0, 0), 2);
    check_query(&agents, &index, 100, Vec3::new(-1, -1, -1), 0);
    check_query(&agents, &index, 100, Vec3::new(-100, -100, -100), 180);
    let near_origin = index.neighbors(Vec3::new(0, 0, 0), 2);
    assert!(near_origin.contains(&1) && near_origin.contains(&2));
}

#[test]
fn radius_larger_than_a_cell() {
    let mut agents = Vec::new();
    let mut i: i64 = 0;
    while i < 40 {
        agents.push(at(i as u64, i * 25 - 500, 0, 0));
        i += 1;
    }
    let index = SpatialIndex::build(&agents, 10).unwrap();
    let ids = index.neighbors(Vec3::new(0, 0, 0), 200);
    let mut k: i64 = 0;
    while k < 40 {
        let x = k * 25 - 500;
        if x.abs() <= 200 {
            assert!(ids.contains(&(k as u64)));
        }
        if x.abs() > 210 {
            assert!(!ids.contains(&(k as u64)));
        }
        k += 1;
    }
    check_query(&agents, &index, 10, Vec3::new(3, 4, 0), 77);
}

#[test]
fn no_false_negatives_on_scattered_points() {
    let mut seed: u64 = 0x5EED;
    for round in 0..6 {
        let agents = scatter(&mut seed, 150, 3_000);
        for cell in [150i64, 1_000, 7_000] {
            let index = SpatialIndex::build(&agents, cell).unwrap();
            for radius in [0i64, 90, 600, 2_500] {
                if radius / cell > 12 {
                    continue;
                }
                for _ in 0..4 {
                    let p = Vec3::new(
                        (next(&mut seed) % 8_001) as i64 - 4_000,
                        (next(&mut seed) % 8_001) as i64 - 4_000,
                        (next(&mut seed) % 8_001) as i64 - 4_000,
                    );
                    check_query(&agents, &index, cell, p, radius);
                }
                let own = agents[(round * 7) % agents.len()].position;
                check_query(&agents, &index, cell, own, radius);
            }
        }
    }
}

#[test]
fn query_far_outside_the_world() {
    let agents = vec![at(1, LIMIT, LIMIT, LIMIT), at(2, -LIMIT, 0, 0)];
    let index = SpatialIndex::build(&agents, 1_000).unwrap();
    assert_eq!(index.neighbors(Vec3::new(i64::MAX, i64::MAX, i64::MAX), 10), Vec::<u64>::new());
    assert_eq!(index.neighbors(Vec3::new(i64::MIN, 0, 0), 1_000), Vec::<u64>::new());
    assert_eq!(index.neighbors(Vec3::new(LIMIT, LIMIT, LIMIT), 0), vec![1]);
    assert_eq!(index.neighbors(Vec3::new(LIMIT + 5, LIMIT, LIMIT), 5), vec![1]);
}

#[test]
fn building_twice_answers_alike() {
    let mut seed: u64 = 99;
    let agents = scatter(&mut seed, 120, 2_000);
    let first = SpatialIndex::build(&agents, 400).unwrap();
    let second = SpatialIndex::build(&agents, 400).unwrap();
    for _ in 0..50 {
        let p = Vec3::new(
            (next(&mut seed) % 5_001) as i64 - 2_500,
            (next(&mut seed) % 5_001) as i64 - 2_500,
            (next(&mut seed) % 5_001) as i64 - 2_500,
        );
        let r = (next(&mut seed) % 1_500) as i64;
        assert_eq!(first.neighbors(p, r), second.neighbors(p, r));
        assert_eq!(first.candidates(p, r), second.candidates(p, r));
    }
}

#[test]
fn agents_at_one_position_are_all_found() {
    let agents = vec![at(4, 5, 5, 5), at(6, 5, 5, 5), at(8, 5, 5, 5)];
    let index = SpatialIndex::build(&agents, 50).unwrap();
    assert_eq!(index.neighbors(Vec3::new(5, 5, 5), 0), vec![4, 6, 8]);
}
