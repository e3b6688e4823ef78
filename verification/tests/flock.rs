use boids::arena::{Arena, ConfigError};
use boids::boid::Boid;
use boids::fixed::SCALE;
use boids::force::{apply_anti_collision_force, push_away, STEER_WEIGHT};
use boids::index::SpatialIndex;
use boids::proximity::{get_proximity, search_region, select_neighbours};
use boids::simulation::Simulation;
use boids::vec2::Vec2;
use rand::rngs::StdRng;
use rand::SeedableRng;

const S: i64 = SCALE;

fn agent(x: i64, y: i64, dx: i64, dy: i64, vel: i64) -> Boid {
    Boid::with_state(Vec2::new(x, y), Vec2::new(dx, dy), vel, 100 * S, 20 * S).unwrap()
}

fn sorted(mut row: Vec<i32>) -> Vec<i32> {
    row.sort();
    row
}

fn state(b: &Boid) -> (Vec2, Vec2, i64, i64, i64) {
    (b.get_pos(), b.get_dir(), b.get_vel(), b.get_radius(), b.get_comfort_zone())
}

fn states(sim: &Simulation) -> Vec<(Vec2, Vec2, i64, i64, i64)> {
    sim.boids().iter().map(state).collect()
}

fn expected_neighbours(boids: &Vec<Boid>, i: usize) -> Vec<i32> {
    let me = &boids[i];
    let mut row = Vec::new();
    for (j, other) in boids.iter().enumerate() {
        let dx = (me.get_pos().x - other.get_x() as i64 * S) as i128;
        let dy = (me.get_pos().y - other.get_y() as i64 * S) as i128;
        let r = me.get_radius() as i128;
        if j != i && dx * dx + dy * dy <= r * r {
            row.push(j as i32);
        }
    }
    row
}

fn bare() -> Arena {
    Arena::new(800, 600, 0).unwrap()
}

#[test]
fn search_region_holds_the_whole_circle() {
    let arena = Arena::new(800, 600, 20).unwrap();
    let b = Boid::with_state(Vec2::new(150_700_000, 20_200_000), Vec2::new(S, 0), S, 100 * S, 20 * S).unwrap();
    assert_eq!(search_region(&b, &arena), (70, -59, 201, 200));
    assert_eq!(search_region(&b, &bare()), (50, -79, 201, 200));
    let b = Boid::with_state(Vec2::new(150_700_000, 20_200_000), Vec2::new(S, 0), S, 900_000, 20).unwrap();
    assert_eq!(search_region(&b, &arena), (169, 39, 3, 3));
    let b = Boid::with_state(Vec2::new(150 * S, 20 * S), Vec2::new(S, 0), S, 2, 1).unwrap();
    assert_eq!(search_region(&b, &arena), (169, 39, 2, 2));
}

#[test]
fn select_neighbours_keeps_the_near_ones_in_order() {
    let me = agent(100 * S, 100 * S, S, 0, S);
    let candidates = vec![
        (200, 100, 5),
        (100, 100, 0),
        (100, 201, 6),
        (40, 20, 7),
        (39, 20, 8),
        (100, 0, 9),
        (100, 100, 3),
        (171, 171, 1),
        (170, 170, 2),
    ];
    assert_eq!(select_neighbours(&me, 0, &candidates, &bare()), vec![5, 7, 9, 3, 2]);
    assert_eq!(select_neighbours(&me, 3, &candidates, &bare()), vec![5, 0, 7, 9, 2]);
    assert_eq!(select_neighbours(&me, 0, &vec![], &bare()), vec![]);
    assert_eq!(select_neighbours(&me, usize::MAX, &vec![(100, 100, -1)], &bare()), vec![-1]);
}

#[test]
fn select_neighbours_measures_from_the_exact_position() {
    let me = agent(100 * S + 999_999, 100 * S, S, 0, S);
    let candidates = vec![(0, 100, 1), (1, 100, 2), (200, 100, 3), (201, 100, 4)];
    assert_eq!(select_neighbours(&me, 0, &candidates, &bare()), vec![2, 3]);
}

#[test]
fn get_proximity_finds_neighbours_through_the_index() {
    let boids = vec![
        agent(100 * S, 100 * S, S, 0, S),
        agent(110 * S, 100 * S, -S, 0, S),
        agent(400 * S, 400 * S, S, 0, S),
        agent(100 * S, 199 * S, S, 0, S),
    ];
    let mut index = SpatialIndex::new(10);
    for (i, b) in boids.iter().enumerate() {
        assert!(index.insert(b.get_x(), b.get_y(), i as i32));
    }
    let out = get_proximity(&boids, &index, &bare());
    assert_eq!(out.len(), 4);
    assert_eq!(sorted(out[0].clone()), vec![1, 3]);
    assert_eq!(sorted(out[1].clone()), vec![0, 3]);
    assert_eq!(out[2], vec![]);
    assert_eq!(sorted(out[3].clone()), vec![0, 1]);
}

#[test]
fn get_proximity_finds_agents_exactly_a_radius_away() {
    let boids = vec![agent(100 * S, 100 * S, S, 0, S), agent(200 * S, 100 * S, S, 0, S), agent(0, 100 * S, S, 0, S)];
    let mut index = SpatialIndex::new(10);
    for (i, b) in boids.iter().enumerate() {
        assert!(index.insert(b.get_x(), b.get_y(), i as i32));
    }
    let out = get_proximity(&boids, &index, &bare());
    assert_eq!(sorted(out[0].clone()), vec![1, 2]);
    assert_eq!(out[1], vec![0]);
    assert_eq!(out[2], vec![0]);
    let pair = vec![agent(100 * S, 100 * S, S, 0, S), agent(200 * S, 100 * S, S, 0, S)];
    let mut index = SpatialIndex::new(10);
    assert!(index.insert(100, 100, 0));
    assert!(index.insert(200, 100, 1));
    assert_eq!(get_proximity(&pair, &index, &bare()), vec![vec![1], vec![0]]);
    let up = vec![agent(100 * S, 100 * S, S, 0, S), agent(100 * S, 200 * S, S, 0, S)];
    let mut index = SpatialIndex::new(10);
    assert!(index.insert(100, 100, 0));
    assert!(index.insert(100, 200, 1));
    assert_eq!(get_proximity(&up, &index, &bare()), vec![vec![1], vec![0]]);
}

#[test]
fn get_proximity_finds_the_cell_beyond_the_truncated_radius() {
    let boids = vec![agent(100_900_000, 100 * S, S, 0, S), agent(200_900_000, 100 * S, S, 0, S)];
    let mut index = SpatialIndex::new(10);
    assert!(index.insert(100, 100, 0));
    assert!(index.insert(200, 100, 1));
    assert_eq!(get_proximity(&boids, &index, &bare()), vec![vec![1], vec![]]);
}

#[test]
fn get_proximity_reads_cells_moved_by_the_margin() {
    let arena = Arena::new(800, 600, 20).unwrap();
    let boids = vec![agent(-10 * S, -10 * S, S, 0, S), agent(-15_500_000, 50 * S, S, 0, S), agent(300 * S, 0, S, 0, S)];
    let mut index = SpatialIndex::new(10);
    for (i, b) in boids.iter().enumerate() {
        assert!(index.insert(b.get_x() + 20, b.get_y() + 20, i as i32));
    }
    let out = get_proximity(&boids, &index, &arena);
    assert_eq!(out, vec![vec![1], vec![0], vec![]]);
    assert_eq!(select_neighbours(&boids[0], 0, &vec![(5, 70, 1), (5, 120, 7), (110, 10, 8), (111, 10, 9)], &arena), vec![1, 8]);
}

#[test]
fn get_proximity_uses_the_stored_cell() {
    let boids = vec![agent(100 * S, 100 * S, S, 0, S), agent(0, 700_000, S, 0, S)];
    let mut index = SpatialIndex::new(10);
    assert!(index.insert(100, 100, 0));
    assert!(index.insert(100, 30, 1));
    let out = get_proximity(&boids, &index, &bare());
    assert_eq!(out[0], vec![1]);
    assert_eq!(out[1], vec![]);
}

#[test]
fn get_proximity_with_an_empty_index() {
    let boids = vec![agent(100 * S, 100 * S, S, 0, S), agent(101 * S, 100 * S, S, 0, S)];
    let index = SpatialIndex::new(10);
    assert_eq!(get_proximity(&boids, &index, &bare()), vec![vec![], vec![]]);
    assert_eq!(get_proximity(&vec![], &index, &bare()), Vec::<Vec<i32>>::new());
}

#[test]
fn push_away_steers_inside_the_comfort_radius() {
    let mut b = agent(100 * S, 100 * S, S, 0, S);
    push_away(&mut b, Vec2::new(100 * S, 110 * S));
    assert_eq!(b.get_dir(), Vec2::new(998_752, -49_937));
    let mut b = agent(100 * S, 100 * S, S, 0, S);
    push_away(&mut b, Vec2::new(100 * S, 120 * S));
    assert_eq!(b.get_dir(), Vec2::new(998_752, -49_937));
    assert_eq!(STEER_WEIGHT, 50_000);
}

#[test]
fn push_away_leaves_far_agents_alone() {
    let mut b = agent(100 * S, 100 * S, S, 0, S);
    push_away(&mut b, Vec2::new(100 * S, 120 * S + 1));
    assert_eq!(b.get_dir(), Vec2::new(S, 0));
}

#[test]
fn push_away_from_the_same_spot_is_skipped() {
    let mut b = agent(100 * S, 100 * S, S, 0, S);
    push_away(&mut b, Vec2::new(100 * S, 100 * S));
    assert_eq!(b.get_dir(), Vec2::new(S, 0));
}

#[test]
fn forces_apply_in_the_order_of_the_row() {
    let mut boids = vec![
        agent(100 * S, 100 * S, S, 0, S),
        agent(100 * S, 110 * S, S, 0, S),
        agent(90 * S, 100 * S, S, 0, S),
        agent(100 * S, 150 * S, S, 0, S),
    ];
    let matrix = vec![vec![1, 2, 3], vec![], vec![0]];
    apply_anti_collision_force(&mut boids, &matrix);
    let mut expected = agent(100 * S, 100 * S, S, 0, S);
    expected.apply_force(Vec2::new(0, -S), 50_000);
    assert_eq!(expected.get_dir(), Vec2::new(998_752, -49_937));
    expected.apply_force(Vec2::new(S, 0), 50_000);
    assert_eq!(boids[0].get_dir(), expected.get_dir());
    assert_eq!(boids[0].get_dir(), Vec2::new(998_868, -47_561));
    assert_eq!(boids[1].get_dir(), Vec2::new(S, 0));
    assert_eq!(boids[2].get_dir(), Vec2::new(S, 0));
    assert_eq!(boids[3].get_dir(), Vec2::new(S, 0));
    assert_eq!(boids[0].get_pos(), Vec2::new(100 * S, 100 * S));
    assert_eq!(boids[2].get_pos(), Vec2::new(90 * S, 100 * S));
}

#[test]
fn forces_depend_on_the_order() {
    let mut one = vec![
        agent(100 * S, 100 * S, 0, S, S),
        agent(100 * S, 110 * S, S, 0, S),
        agent(90 * S, 100 * S, S, 0, S),
    ];
    let mut other = one.clone();
    apply_anti_collision_force(&mut one, &vec![vec![1, 2]]);
    apply_anti_collision_force(&mut other, &vec![vec![2, 1]]);
    assert!(one[0].get_dir().has_unit_length());
    assert!(other[0].get_dir().has_unit_length());
    assert_ne!(one[0].get_dir(), other[0].get_dir());
}

#[test]
fn forces_with_an_empty_matrix_change_nothing() {
    let mut boids = vec![agent(100 * S, 100 * S, S, 0, S), agent(100 * S, 101 * S, S, 0, S)];
    apply_anti_collision_force(&mut boids, &vec![]);
    assert_eq!(boids[0].get_dir(), Vec2::new(S, 0));
    assert_eq!(boids[1].get_dir(), Vec2::new(S, 0));
}

#[test]
fn simulation_keeps_the_agents_it_is_given() {
    let arena = Arena::new(800, 600, 20).unwrap();
    let boids = vec![agent(100 * S, 100 * S, S, 0, S), agent(110 * S, 100 * S, -S, 0, S)];
    let sim = Simulation::new(arena, boids.clone()).unwrap();
    assert_eq!(sim.arena().width(), 800);
    assert_eq!(sim.boids().len(), 2);
    assert_eq!(state(&sim.boids()[0]), state(&boids[0]));
    assert_eq!(state(&sim.boids()[1]), state(&boids[1]));
    assert_eq!(sim.index().depth(), 10);
    assert_eq!(sim.neighbours(), vec![vec![1], vec![0]]);
}

#[test]
fn simulation_of_no_agents_ticks() {
    let arena = Arena::new(800, 600, 20).unwrap();
    let mut sim = Simulation::new(arena, vec![]).unwrap();
    sim.tick();
    assert_eq!(sim.boids().len(), 0);
    assert_eq!(sim.neighbours(), Vec::<Vec<i32>>::new());
}

#[test]
fn random_simulation_has_the_count_asked_for() {
    let arena = Arena::new(800, 600, 20).unwrap();
    let mut rng = StdRng::seed_from_u64(1);
    let sim = Simulation::random(arena, 400, &mut rng).unwrap();
    assert_eq!(sim.boids().len(), 400);
    for b in sim.boids() {
        assert!(0 <= b.get_pos().x && b.get_pos().x < 800 * S);
        assert!(0 <= b.get_pos().y && b.get_pos().y < 600 * S);
    }
}

#[test]
fn random_simulation_refuses_too_many_agents() {
    let arena = Arena::new(800, 600, 20).unwrap();
    let mut rng = StdRng::seed_from_u64(1);
    let made = Simulation::random(arena, 0x8000_0000, &mut rng);
    assert_eq!(made.err(), Some(ConfigError::TooManyAgents));
}

#[test]
fn advance_moves_every_agent_and_rebuilds_the_index() {
    let arena = Arena::new(800, 600, 20).unwrap();
    let boids = vec![agent(100 * S, 100 * S, S, 0, 5 * S), agent(300 * S, 100 * S, -S, 0, 5 * S)];
    let mut sim = Simulation::new(arena, boids).unwrap();
    assert_eq!(sim.neighbours(), vec![vec![], vec![]]);
    for _ in 0..11 {
        sim.advance();
    }
    assert_eq!(sim.boids()[0].get_pos(), Vec2::new(155 * S, 100 * S));
    assert_eq!(sim.boids()[1].get_pos(), Vec2::new(245 * S, 100 * S));
    assert_eq!(sim.neighbours(), vec![vec![1], vec![0]]);
    let mut found = sim.index().query(0, 0, 1024, 1024);
    found.sort();
    assert_eq!(found, vec![(175, 120, 0), (265, 120, 1)]);
}

#[test]
fn tick_is_advance_then_neighbours_then_forces() {
    let arena = Arena::new(800, 600, 20).unwrap();
    let mut rng = StdRng::seed_from_u64(11);
    let mut sim = Simulation::random(arena, 150, &mut rng).unwrap();
    let mut by_hand = Simulation::new(arena, sim.boids().clone()).unwrap();
    for _ in 0..20 {
        sim.tick();
        by_hand.advance();
        let matrix = by_hand.neighbours();
        let mut boids = by_hand.boids().clone();
        apply_anti_collision_force(&mut boids, &matrix);
        by_hand = Simulation::new(arena, boids).unwrap();
        assert_eq!(states(&sim), states(&by_hand));
    }
}

#[test]
fn neighbours_are_near_and_never_the_agent_itself() {
    let arena = Arena::new(800, 600, 20).unwrap();
    let mut rng = StdRng::seed_from_u64(3);
    let mut sim = Simulation::random(arena, 300, &mut rng).unwrap();
    for _ in 0..30 {
        sim.tick();
        let out = sim.neighbours();
        let boids = sim.boids();
        assert_eq!(out.len(), boids.len());
        for (i, row) in out.iter().enumerate() {
            for &j in row {
                assert_ne!(j as usize, i);
                let other = &boids[j as usize];
                let at = Vec2::new(other.get_x() as i64 * S, other.get_y() as i64 * S);
                assert!(boids[i].get_pos().within(&at, boids[i].get_radius()));
            }
        }
    }
}

#[test]
fn neighbours_miss_no_agent_the_index_holds() {
    let arena = Arena::new(800, 600, 20).unwrap();
    let mut rng = StdRng::seed_from_u64(5);
    let mut sim = Simulation::random(arena, 300, &mut rng).unwrap();
    let mut total = 0;
    for _ in 0..30 {
        sim.tick();
        let out = sim.neighbours();
        for i in 0..out.len() {
            let expected = expected_neighbours(sim.boids(), i);
            total += expected.len();
            assert_eq!(sorted(out[i].clone()), expected);
            assert_eq!(out[i].len(), expected.len());
        }
    }
    assert!(total > 1000);
}

#[test]
fn neighbours_find_agents_in_the_margin() {
    let arena = Arena::new(800, 600, 20).unwrap();
    let boids = vec![
        agent(5 * S, 5 * S, S, 0, S),
        agent(-2 * S, 5 * S, S, 0, S),
        agent(-900_000, 5 * S, S, 0, S),
        agent(-20 * S, -20 * S, S, 0, S),
    ];
    let sim = Simulation::new(arena, boids).unwrap();
    let out: Vec<Vec<i32>> = sim.neighbours().into_iter().map(sorted).collect();
    assert_eq!(out, vec![vec![1, 2, 3], vec![0, 2, 3], vec![0, 1, 3], vec![0, 1, 2]]);
}

#[test]
fn neighbours_find_agents_on_the_far_bounds() {
    let arena = Arena::new(1024, 1024, 0).unwrap();
    let boids = vec![agent(1024 * S, 500 * S, S, 0, S), agent(1000 * S, 500 * S, S, 0, S), agent(1024 * S, 1024 * S, S, 0, S)];
    let sim = Simulation::new(arena, boids).unwrap();
    assert_eq!(sim.index().depth(), 11);
    assert_eq!(sim.neighbours(), vec![vec![1], vec![0], vec![]]);
    let arena = Arena::new(800, 600, 20).unwrap();
    let boids = vec![agent(820 * S, 620 * S, S, 0, S), agent(820 * S, 520 * S, S, 0, S), agent(720 * S, 620 * S, S, 0, S)];
    let sim = Simulation::new(arena, boids).unwrap();
    let out: Vec<Vec<i32>> = sim.neighbours().into_iter().map(sorted).collect();
    assert_eq!(out, vec![vec![1, 2], vec![0], vec![0]]);
}

#[test]
fn neighbours_exactly_a_radius_apart_find_each_other() {
    let arena = Arena::new(800, 600, 20).unwrap();
    let boids = vec![agent(100 * S, 100 * S, S, 0, S), agent(200 * S, 100 * S, S, 0, S)];
    let sim = Simulation::new(arena, boids).unwrap();
    assert_eq!(sim.neighbours(), vec![vec![1], vec![0]]);
}

#[test]
fn simulation_refuses_an_agent_outside_the_arena() {
    let arena = Arena::new(800, 600, 20).unwrap();
    let made = Simulation::new(arena, vec![agent(100 * S, 100 * S, S, 0, S), agent(-20 * S - 1, 100 * S, S, 0, S)]);
    assert_eq!(made.err(), Some(ConfigError::OutsideArena));
    let made = Simulation::new(arena, vec![agent(100 * S, 620 * S + 1, S, 0, S)]);
    assert_eq!(made.err(), Some(ConfigError::OutsideArena));
    assert!(Simulation::new(arena, vec![agent(-20 * S, 620 * S, S, 0, S), agent(820 * S, -20 * S, S, 0, S)]).is_ok());
}

#[test]
fn runs_repeat() {
    let arena = Arena::new(800, 600, 20).unwrap();
    let mut rng = StdRng::seed_from_u64(42);
    let start = Simulation::random(arena, 200, &mut rng).unwrap();
    let mut first = Simulation::new(arena, start.boids().clone()).unwrap();
    let mut second = Simulation::new(arena, start.boids().clone()).unwrap();
    second.tick();
    let mut second = Simulation::new(arena, start.boids().clone()).unwrap();
    first.run(60);
    for _ in 0..60 {
        second.tick();
    }
    assert_eq!(states(&first), states(&second));
    assert_ne!(states(&first), states(&start));
}

#[test]
fn run_of_no_ticks_changes_nothing() {
    let arena = Arena::new(800, 600, 20).unwrap();
    let mut rng = StdRng::seed_from_u64(42);
    let mut sim = Simulation::random(arena, 20, &mut rng).unwrap();
    let before = states(&sim);
    sim.run(0);
    assert_eq!(states(&sim), before);
}

#[test]
fn flock_keeps_unit_headings_and_stays_in_the_arena() {
    let arena = Arena::new(800, 600, 20).unwrap();
    let mut rng = StdRng::seed_from_u64(9);
    let mut sim = Simulation::random(arena, 400, &mut rng).unwrap();
    for _ in 0..100 {
        sim.tick();
        for b in sim.boids() {
            assert!(b.get_dir().has_unit_length());
            let h = b.get_dir();
            let len = ((h.x as f64 / 1e6).powi(2) + (h.y as f64 / 1e6).powi(2)).sqrt();
            assert!((len - 1.0).abs() <= 1e-5);
            assert!(-20 * S <= b.get_pos().x && b.get_pos().x <= 820 * S);
            assert!(-20 * S <= b.get_pos().y && b.get_pos().y <= 620 * S);
        }
    }
}

#[test]
fn opposing_agents_do_not_turn_toward_each_other() {
    let arena = Arena::new(800, 600, 20).unwrap();
    let boids = vec![agent(100 * S, 100 * S, S, 0, S), agent(110 * S, 100 * S, -S, 0, S)];
    let mut sim = Simulation::new(arena, boids).unwrap();
    let toward = [Vec2::new(S, 0), Vec2::new(-S, 0)];
    let dot = |a: Vec2, b: Vec2| a.x as i128 * b.x as i128 + a.y as i128 * b.y as i128;
    let before: Vec<i128> = (0..2).map(|i| dot(sim.boids()[i].get_dir(), toward[i])).collect();
    sim.tick();
    assert_eq!(sim.boids()[0].get_pos(), Vec2::new(101 * S, 100 * S));
    assert_eq!(sim.boids()[1].get_pos(), Vec2::new(109 * S, 100 * S));
    assert_eq!(sim.neighbours(), vec![vec![1], vec![0]]);
    for i in 0..2 {
        assert!(dot(sim.boids()[i].get_dir(), toward[i]) <= before[i]);
        assert!(sim.boids()[i].get_dir().has_unit_length());
    }
}

#[test]
fn agents_that_pass_turn_away() {
    let arena = Arena::new(800, 600, 20).unwrap();
    let boids = vec![agent(100 * S, 100 * S, S, 0, S), agent(110 * S, 103 * S, -S, 0, S)];
    let mut sim = Simulation::new(arena, boids).unwrap();
    sim.tick();
    let dot = |a: Vec2, b: Vec2| a.x as i128 * b.x as i128 + a.y as i128 * b.y as i128;
    let to_second = Vec2::new(8 * S, 3 * S);
    let to_first = Vec2::new(-8 * S, -3 * S);
    assert!(dot(sim.boids()[0].get_dir(), to_second) < dot(Vec2::new(S, 0), to_second));
    assert!(dot(sim.boids()[1].get_dir(), to_first) < dot(Vec2::new(-S, 0), to_first));
    assert!(sim.boids()[0].get_dir().y < 0);
    assert!(sim.boids()[1].get_dir().y > 0);
}

#[test]
fn lone_agent_keeps_its_heading() {
    let arena = Arena::new(800, 600, 20).unwrap();
    let boids = vec![
        agent(100 * S, 100 * S, 600_000, 800_000, S),
        agent(500 * S, 400 * S, S, 0, S),
        agent(502 * S, 400 * S, 0, S, S),
    ];
    let mut sim = Simulation::new(arena, boids).unwrap();
    for _ in 0..10 {
        sim.tick();
        assert_eq!(sim.neighbours()[0], vec![]);
        assert_eq!(sim.boids()[0].get_dir(), Vec2::new(600_000, 800_000));
    }
    assert_ne!(sim.boids()[1].get_dir(), Vec2::new(S, 0));
    let mut alone = Simulation::new(arena, vec![agent(100 * S, 100 * S, 0, -S, S)]).unwrap();
    alone.tick();
    assert_eq!(alone.neighbours(), vec![vec![]]);
    assert_eq!(alone.boids()[0].get_dir(), Vec2::new(0, -S));
}
