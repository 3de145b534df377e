use flappy_feller::feller::closest_pipe;
use flappy_feller::pipe::{update_pipes, Pipe};
use flappy_feller::population::{Population, POPULATION_SIZE};
use flappy_feller::simulation::{adjust_speed, Simulation, SpeedKey};
use flappy_feller::world::{World, FELLER_X, HSPEED};
use rand::rngs::StdRng;
use rand::SeedableRng;

fn world() -> World {
    World::new(80000, 60000).unwrap()
}

#[test]
fn speed_requests_are_clamped() {
    assert_eq!(adjust_speed(1, Some(SpeedKey::Faster)), 2);
    assert_eq!(adjust_speed(1, Some(SpeedKey::Slower)), 1);
    assert_eq!(adjust_speed(5, Some(SpeedKey::Slower)), 4);
    assert_eq!(adjust_speed(50, Some(SpeedKey::Reset)), 1);
    assert_eq!(adjust_speed(50, Some(SpeedKey::MuchFaster)), 60);
    assert_eq!(adjust_speed(95, Some(SpeedKey::MuchFaster)), 100);
    assert_eq!(adjust_speed(100, Some(SpeedKey::Faster)), 100);
    assert_eq!(adjust_speed(0, None), 1);
    assert_eq!(adjust_speed(7, None), 7);
    assert_eq!(adjust_speed(usize::MAX, None), 100);
}

#[test]
fn scenario_no_obstacles_everyone_falls() {
    let w = world();
    let mut pop = Population::new(POPULATION_SIZE, &w);
    let flaps = vec![false; POPULATION_SIZE];
    for step in 0..1000 {
        pop.simulate_fellers(&vec![], step, &flaps, &w);
    }
    assert_eq!(pop.survivor_count(), 0);
    assert!(!pop.is_alive());
    for f in &pop.fellers {
        assert!(f.y > w.height);
        assert!(f.steps_survived > 0 && f.steps_survived < 1000);
    }
}

/// A controller that flaps while falling below a set height.
fn timed_flap(y: i64, yspeed: i64, pipes: &Vec<Pipe>) -> bool {
    closest_pipe(pipes).is_some() && y > 30000 && yspeed >= 0
}

#[test]
fn scenario_well_timed_flaps_survive() {
    let w = world();
    let mut pop = Population::new(1, &w);
    let mut pipes: Vec<Pipe> = vec![];
    let mut passed = 0;
    for step in 0..20000 {
        update_pipes(&mut pipes, Some(Pipe { x: w.width, y1: 10000, y2: 40000 }), &w);
        if pipes.iter().any(|p| p.x <= FELLER_X && p.x + HSPEED > FELLER_X) {
            passed += 1;
        }
        let f = pop.fellers[0];
        let flaps = vec![timed_flap(f.y, f.yspeed, &pipes)];
        pop.simulate_fellers(&pipes, step, &flaps, &w);
        assert!(pop.is_alive(), "died at step {}", step);
    }
    assert!(passed > 50);
}

#[test]
fn always_flapping_feller_hits_the_ceiling() {
    let w = world();
    let mut pop = Population::new(1, &w);
    let pipes = vec![Pipe { x: 70000, y1: 10000, y2: 40000 }];
    for step in 0..1000 {
        pop.simulate_fellers(&pipes, step, &vec![true], &w);
    }
    assert!(!pop.is_alive());
    assert!(pop.fellers[0].y < 0);
}

#[test]
fn generation_rolls_over_once_everyone_died() {
    let w = world();
    let mut rng = StdRng::seed_from_u64(21);
    let mut sim = Simulation::new(&w);
    assert_eq!(sim.generation, 1);
    assert!(sim.next_generation(&mut rng).is_none());
    let flaps = vec![false; POPULATION_SIZE];
    let mut ticks = 0;
    while sim.population.is_alive() {
        sim.advance_pipes(&mut rng);
        assert!(!sim.pipes.is_empty());
        sim.step_fellers(&flaps);
        ticks += 1;
    }
    assert_eq!(sim.steps, ticks);
    let lineage = sim.next_generation(&mut rng).unwrap();
    assert_eq!(lineage.len(), POPULATION_SIZE);
    assert_eq!(sim.generation, 2);
    assert_eq!(sim.steps, 0);
    assert!(sim.pipes.is_empty());
    assert_eq!(sim.population.fellers.len(), POPULATION_SIZE);
    assert_eq!(sim.population.survivor_count(), POPULATION_SIZE);
}
