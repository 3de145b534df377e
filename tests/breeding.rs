use flappy_feller::feller::Feller;
use flappy_feller::population::{Population, ELITE_SIZE, OFFSPRING_SIZE, POPULATION_SIZE};
use flappy_feller::selection::{
    draw_range, elite_indices, elite_weights, pick_parent, rank_fellers, roulette_pick, score,
    squared_score, total_weight,
};
use flappy_feller::world::World;
use rand::rngs::StdRng;
use rand::SeedableRng;

fn world() -> World {
    World::new(80000, 60000).unwrap()
}

fn dead(steps: u32) -> Feller {
    Feller { y: 70000, yspeed: 200, is_alive: false, steps_survived: steps }
}

#[test]
fn sizes_are_rounded_up_shares() {
    assert_eq!(POPULATION_SIZE, 150);
    assert_eq!(ELITE_SIZE, 8);
    assert_eq!(OFFSPRING_SIZE, 120);
}

#[test]
fn score_is_steps_survived_and_weight_its_square() {
    assert_eq!(score(&dead(7)), 7);
    assert_eq!(squared_score(&dead(7)), 49);
    assert_eq!(squared_score(&dead(u32::MAX)), (u32::MAX as u64) * (u32::MAX as u64));
}

#[test]
fn ranking_is_by_descending_fitness_with_earlier_first_on_ties() {
    let fs = vec![dead(3), dead(9), dead(3), dead(0), dead(9)];
    assert_eq!(rank_fellers(&fs), vec![1, 4, 0, 2, 3]);
    assert_eq!(elite_indices(&fs, 3), vec![1, 4, 0]);
    assert_eq!(elite_indices(&fs, 10), vec![1, 4, 0, 2, 3]);
    assert_eq!(elite_indices(&vec![], 3), Vec::<usize>::new());
}

#[test]
fn elite_weights_are_squared_scores() {
    let fs = vec![dead(3), dead(9), dead(2)];
    assert_eq!(elite_weights(&fs, &vec![1, 0]), vec![81, 9]);
}

#[test]
fn roulette_gives_each_index_a_stretch_as_long_as_its_weight() {
    let w = vec![1, 0, 3];
    assert_eq!(total_weight(&w), 4);
    assert_eq!(draw_range(&w), 4);
    assert_eq!(roulette_pick(&w, 0), 0);
    assert_eq!(roulette_pick(&w, 1), 2);
    assert_eq!(roulette_pick(&w, 3), 2);
    let mut counts = [0u32; 3];
    for d in 0..4 {
        counts[pick_parent(&w, d)] += 1;
    }
    assert_eq!(counts, [1, 0, 3]);
}

#[test]
fn zero_total_weight_picks_uniformly() {
    let w = vec![0, 0, 0];
    assert_eq!(total_weight(&w), 0);
    assert_eq!(draw_range(&w), 3);
    assert_eq!(pick_parent(&w, 0), 0);
    assert_eq!(pick_parent(&w, 2), 2);
}

#[test]
fn survivors_are_counted() {
    let w = world();
    let mut p = Population::new(5, &w);
    assert_eq!(p.fellers.len(), 5);
    assert!(p.is_alive());
    assert_eq!(p.survivor_count(), 5);
    p.fellers[1] = dead(3);
    p.fellers[3] = dead(4);
    assert_eq!(p.survivor_count(), 3);
    for f in p.fellers.iter_mut() {
        *f = dead(1);
    }
    assert!(!p.is_alive());
    assert_eq!(p.survivor_count(), 0);
}

#[test]
fn scenario_all_died_at_first_step() {
    let w = world();
    let pred = Population { fellers: (0..POPULATION_SIZE).map(|_| dead(0)).collect() };
    let mut rng = StdRng::seed_from_u64(3);
    let (next, lineage) = Population::from_predecessors(pred, &mut rng, &w);
    assert_eq!(next.fellers.len(), POPULATION_SIZE);
    assert_eq!(lineage.len(), POPULATION_SIZE);
    for f in &next.fellers {
        assert_eq!(*f, Feller::new(&w));
    }
    for (i, parent) in lineage.iter().enumerate() {
        if i < OFFSPRING_SIZE {
            // ties go to the earliest fellers
            assert!(parent.unwrap() < ELITE_SIZE);
        } else {
            assert!(parent.is_none());
        }
    }
}

#[test]
fn offspring_come_from_the_elite_only() {
    let w = world();
    let fellers: Vec<Feller> = (0..POPULATION_SIZE as u32).map(|i| dead((i * 37) % 150)).collect();
    let elite = elite_indices(&fellers, ELITE_SIZE);
    let weights = elite_weights(&fellers, &elite);
    assert_eq!(elite.len(), ELITE_SIZE);
    let mut rng = StdRng::seed_from_u64(11);
    let (next, lineage) =
        Population::from_predecessors(Population { fellers: fellers.clone() }, &mut rng, &w);
    assert_eq!(next.fellers.len(), POPULATION_SIZE);
    let mut bred = 0;
    for (i, parent) in lineage.iter().enumerate() {
        match parent {
            Some(p) => {
                assert!(i < OFFSPRING_SIZE);
                assert!(elite.contains(p));
                let k = elite.iter().position(|e| e == p).unwrap();
                assert!(weights[k] > 0);
                bred += 1;
            }
            None => assert!(i >= OFFSPRING_SIZE),
        }
    }
    assert_eq!(bred, OFFSPRING_SIZE);
    // the elite are the fellers with the highest scores
    let best: Vec<u32> = elite.iter().map(|&i| fellers[i].steps_survived).collect();
    assert_eq!(best, vec![149, 148, 147, 146, 145, 144, 143, 142]);
}

#[test]
fn empty_generation_breeds_only_new_fellers() {
    let w = world();
    let mut rng = StdRng::seed_from_u64(5);
    let (next, lineage) = Population::from_predecessors(Population { fellers: vec![] }, &mut rng, &w);
    assert_eq!(next.fellers.len(), POPULATION_SIZE);
    assert!(lineage.iter().all(|p| p.is_none()));
}

#[test]
fn population_size_is_kept_over_generations() {
    let w = world();
    let mut rng = StdRng::seed_from_u64(9);
    let mut pop = Population::new(POPULATION_SIZE, &w);
    for g in 0..5u32 {
        for (i, f) in pop.fellers.iter_mut().enumerate() {
            *f = dead(g * 10 + i as u32 % 13);
        }
        let (next, lineage) = Population::from_predecessors(pop, &mut rng, &w);
        assert_eq!(next.fellers.len(), POPULATION_SIZE);
        assert_eq!(lineage.len(), POPULATION_SIZE);
        pop = next;
    }
}
