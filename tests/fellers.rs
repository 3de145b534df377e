use flappy_feller::feller::{closest_pipe, hits_pipe, simulate_feller, Feller};
use flappy_feller::pipe::Pipe;
use flappy_feller::world::{World, FELLER_MAX_SPEED, FELLER_R, FELLER_X, GRAVITY, LIFT};

fn world() -> World {
    World::new(80000, 60000).unwrap()
}

#[test]
fn new_feller_starts_at_a_third_of_the_height() {
    let f = Feller::new(&world());
    assert_eq!(f, Feller { y: 20000, yspeed: 0, is_alive: true, steps_survived: 0 });
}

#[test]
fn closest_pipe_is_first_one_still_ahead() {
    let pipes = vec![
        Pipe { x: FELLER_X - 10, y1: 0, y2: 1 },
        Pipe { x: FELLER_X, y1: 0, y2: 1 },
        Pipe { x: FELLER_X + 1, y1: 0, y2: 1 },
        Pipe { x: FELLER_X + 500, y1: 0, y2: 1 },
    ];
    assert_eq!(closest_pipe(&pipes), Some(2));
    assert_eq!(closest_pipe(&pipes[..2].to_vec()), None);
    assert_eq!(closest_pipe(&vec![]), None);
}

#[test]
fn feller_inside_hole_does_not_hit_aligned_pipe() {
    // hole from 100 to 180 pixels, feller at 140 with radius 20
    let pipe = Pipe { x: FELLER_X, y1: 10000, y2: 18000 };
    assert!(!hits_pipe(14000, &pipe));
    assert!(!hits_pipe(10000 + FELLER_R, &pipe));
    assert!(!hits_pipe(18000 - FELLER_R, &pipe));
}

#[test]
fn feller_outside_hole_hits_aligned_pipe() {
    let pipe = Pipe { x: FELLER_X, y1: 10000, y2: 18000 };
    assert!(hits_pipe(10000 + FELLER_R - 1, &pipe));
    assert!(hits_pipe(18000 - FELLER_R + 1, &pipe));
    assert!(hits_pipe(5000, &pipe));
}

#[test]
fn pipe_that_is_not_aligned_is_never_hit() {
    let right = Pipe { x: FELLER_X + FELLER_R, y1: 10000, y2: 18000 };
    let left = Pipe { x: FELLER_X - FELLER_R, y1: 10000, y2: 18000 };
    assert!(!hits_pipe(5000, &right));
    assert!(!hits_pipe(5000, &left));
    let barely = Pipe { x: FELLER_X + FELLER_R - 1, y1: 10000, y2: 18000 };
    assert!(hits_pipe(5000, &barely));
}

#[test]
fn scenario_feller_in_gap_survives_aligned_pipe() {
    let w = world();
    let pipes = vec![Pipe { x: FELLER_X, y1: 10000, y2: 18000 }];
    let mut f = Feller { y: 14000, yspeed: 0, is_alive: true, steps_survived: 0 };
    simulate_feller(&mut f, &pipes, 5, false, &w);
    assert!(f.is_alive);
    assert_eq!(f.y, 14000 + GRAVITY);
}

#[test]
fn gravity_accelerates_a_falling_feller() {
    let w = world();
    let mut f = Feller::new(&w);
    simulate_feller(&mut f, &vec![], 0, false, &w);
    assert_eq!((f.yspeed, f.y), (GRAVITY, 20000 + GRAVITY));
    simulate_feller(&mut f, &vec![], 1, false, &w);
    assert_eq!((f.yspeed, f.y), (2 * GRAVITY, 20000 + 3 * GRAVITY));
}

#[test]
fn speed_is_clamped_to_the_maximum() {
    let w = world();
    let mut f = Feller { y: 20000, yspeed: FELLER_MAX_SPEED, is_alive: true, steps_survived: 0 };
    simulate_feller(&mut f, &vec![], 0, false, &w);
    assert_eq!(f.yspeed, FELLER_MAX_SPEED);
    assert_eq!(f.y, 20000 + FELLER_MAX_SPEED);
    let ahead = vec![Pipe { x: 60000, y1: 10000, y2: 20000 }];
    let mut g = Feller { y: 20000, yspeed: -150, is_alive: true, steps_survived: 0 };
    simulate_feller(&mut g, &ahead, 0, true, &w);
    assert_eq!(g.yspeed, -FELLER_MAX_SPEED);
}

#[test]
fn flap_lifts_only_with_a_pipe_ahead() {
    let w = world();
    let ahead = vec![Pipe { x: 60000, y1: 10000, y2: 20000 }];
    let mut f = Feller::new(&w);
    simulate_feller(&mut f, &ahead, 0, true, &w);
    assert_eq!(f.yspeed, -LIFT + GRAVITY);
    assert_eq!(f.y, 20000 - LIFT + GRAVITY);
    let behind = vec![Pipe { x: FELLER_X - 1000, y1: 0, y2: 60000 }];
    let mut g = Feller::new(&w);
    simulate_feller(&mut g, &behind, 0, true, &w);
    assert_eq!(g.yspeed, GRAVITY);
}

#[test]
fn leaving_the_world_kills_and_records_the_step() {
    let w = world();
    let mut f = Feller { y: 60000, yspeed: 100, is_alive: true, steps_survived: 0 };
    simulate_feller(&mut f, &vec![], 37, false, &w);
    assert!(!f.is_alive);
    assert_eq!(f.steps_survived, 37);
    let mut g = Feller { y: 0, yspeed: -100, is_alive: true, steps_survived: 0 };
    simulate_feller(&mut g, &vec![], 12, false, &w);
    assert!(!g.is_alive);
    assert_eq!(g.steps_survived, 12);
}

#[test]
fn crash_into_pipe_kills() {
    let w = world();
    let pipes = vec![Pipe { x: FELLER_X, y1: 10000, y2: 18000 }];
    let mut f = Feller { y: 25000, yspeed: 0, is_alive: true, steps_survived: 0 };
    simulate_feller(&mut f, &pipes, 99, false, &w);
    assert!(!f.is_alive);
    assert_eq!(f.steps_survived, 99);
}

#[test]
fn dead_feller_is_frozen() {
    let w = world();
    let dead = Feller { y: 61000, yspeed: 120, is_alive: false, steps_survived: 8 };
    let mut f = dead;
    for step in 9..100 {
        simulate_feller(&mut f, &vec![], step, true, &w);
    }
    assert_eq!(f, dead);
}
