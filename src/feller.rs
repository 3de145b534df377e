use vstd::prelude::*;
use crate::pipe::Pipe;
use crate::world::{World, FELLER_MAX_SPEED, FELLER_R, FELLER_X, GRAVITY, LIFT, MAX_WORLD_SIZE};

verus! {

/// The state of one flappy feller. Its controller is kept by the caller.
#[derive(Clone, Copy, Debug, PartialEq, Eq, Structural)]
pub struct Feller {
    /// Vertical position of the feller's centre.
    pub y: i64,
    /// Vertical speed; positive is downwards.
    pub yspeed: i64,
    /// Whether the feller is still flying.
    pub is_alive: bool,
    /// The step at which the feller died; 0 while it lives.
    pub steps_survived: u32,
}

impl Feller {
    /// The speed is within its bounds, a living feller is inside the world,
    /// and a dead one not far from it.
    pub open spec fn wf(&self, world: World) -> bool {
        &&& -FELLER_MAX_SPEED <= self.yspeed <= FELLER_MAX_SPEED
        &&& -MAX_WORLD_SIZE <= self.y <= 2 * MAX_WORLD_SIZE
        &&& self.is_alive ==> 0 <= self.y <= world.height
    }

    /// The state of a newly made feller: at a third of the world's height,
    /// at rest, alive.
    pub open spec fn is_fresh(&self, world: World) -> bool {
        &&& self.y == world.height / 3
        &&& self.yspeed == 0
        &&& self.is_alive
        &&& self.steps_survived == 0
    }

    /// A new feller at a third of the world's height, at rest.
    pub fn new(world: &World) -> (f: Feller)
        requires
            world.wf(),
        ensures
            f.is_fresh(*world),
            f.wf(*world),
    {
        Feller { y: world.height / 3, yspeed: 0, is_alive: true, steps_survived: 0 }
    }
}

/// The pipe is still right of the fellers.
pub open spec fn ahead(p: Pipe) -> bool {
    p.x > FELLER_X
}

/// The pipe overlaps the fellers horizontally: its left edge is less than a
/// body radius away from them.
pub open spec fn aligned(p: Pipe) -> bool {
    FELLER_X - FELLER_R < p.x < FELLER_X + FELLER_R
}

/// A feller at height `y` fits through the pipe's hole.
pub open spec fn inside_hole(y: int, p: Pipe) -> bool {
    p.y1 <= y - FELLER_R && y + FELLER_R <= p.y2
}

/// A feller at height `y` crashes into the pipe.
pub open spec fn blocked(y: int, p: Pipe) -> bool {
    aligned(p) && (y - FELLER_R < p.y1 || y + FELLER_R > p.y2)
}

/// A feller at height `y` has left the world through its top or bottom, or
/// crashed into one of the pipes.
pub open spec fn crashes(y: int, pipes: Seq<Pipe>, world: World) -> bool {
    y < 0 || y > world.height || exists|i: int| 0 <= i < pipes.len() && blocked(y, #[trigger] pipes[i])
}

/// Some pipe is still ahead of the fellers.
pub open spec fn pipe_ahead(pipes: Seq<Pipe>) -> bool {
    exists|i: int| 0 <= i < pipes.len() && ahead(#[trigger] pipes[i])
}

/// `v` limited to `[lo, hi]`.
pub open spec fn clamp(v: int, lo: int, hi: int) -> int {
    if v < lo {
        lo
    } else if v > hi {
        hi
    } else {
        v
    }
}

/// The speed one step later: less [`LIFT`] on a flap, plus [`GRAVITY`],
/// limited to the maximum speed.
pub open spec fn next_speed(v: int, lift: bool) -> int {
    clamp(
        v - (if lift { LIFT as int } else { 0 }) + GRAVITY as int,
        -FELLER_MAX_SPEED as int,
        FELLER_MAX_SPEED as int,
    )
}

/// The feller one step later. A dead feller does not change. A living one
/// flaps where `flap` holds and a pipe is ahead, falls, moves, and dies at
/// `step` where it leaves the world or crashes into a pipe.
pub open spec fn stepped(f: Feller, pipes: Seq<Pipe>, step: u32, flap: bool, world: World) -> Feller {
    if !f.is_alive {
        f
    } else {
        let v = next_speed(f.yspeed as int, flap && pipe_ahead(pipes));
        let y = f.y + v;
        if crashes(y, pipes, world) {
            Feller { y: y as i64, yspeed: v as i64, is_alive: false, steps_survived: step }
        } else {
            Feller { y: y as i64, yspeed: v as i64, ..f }
        }
    }
}

/// The index of the first pipe that is still ahead of the fellers, if any.
pub fn closest_pipe(pipes: &Vec<Pipe>) -> (r: Option<usize>)
    ensures
        r matches Some(i) ==> i < pipes@.len() && ahead(pipes@[i as int]) && forall|j: int|
            0 <= j < i ==> !ahead(#[trigger] pipes@[j]),
        r is None <==> !pipe_ahead(pipes@),
{
    let mut i: usize = 0;
    while i < pipes.len()
        invariant
            0 <= i <= pipes@.len(),
            forall|j: int| 0 <= j < i ==> !ahead(#[trigger] pipes@[j]),
        decreases pipes@.len() - i,
    {
        if pipes[i].x > FELLER_X {
            return Some(i);
        }
        i = i + 1;
    }
    None
}

/// Whether a feller at height `y` crashes into the pipe.
pub fn hits_pipe(y: i64, pipe: &Pipe) -> (r: bool)
    ensures
        r == blocked(y as int, *pipe),
{
    let aligned = FELLER_X - FELLER_R < pipe.x && pipe.x < FELLER_X + FELLER_R;
    let y = y as i128;
    let r = FELLER_R as i128;
    aligned && (y - r < pipe.y1 as i128 || y + r > pipe.y2 as i128)
}

/// Moves a living feller by one step and checks it for collisions with the
/// world's top and bottom and with the pipes; a dead feller is left as it is.
/// `flap` is the controller's decision, used only where a pipe is ahead.
pub fn simulate_feller(feller: &mut Feller, pipes: &Vec<Pipe>, step: u32, flap: bool, world: &World)
    requires
        world.wf(),
        old(feller).wf(*world),
    ensures
        *final(feller) == stepped(*old(feller), pipes@, step, flap, *world),
        final(feller).wf(*world),
{
    if !feller.is_alive {
        return;
    }
    let lift = flap && closest_pipe(pipes).is_some();
    let mut v = feller.yspeed;
    if lift {
        v = v - LIFT;
    }
    v = v + GRAVITY;
    if v < -FELLER_MAX_SPEED {
        v = -FELLER_MAX_SPEED;
    } else if v > FELLER_MAX_SPEED {
        v = FELLER_MAX_SPEED;
    }
    let y = feller.y + v;
    feller.yspeed = v;
    feller.y = y;
    let mut dead = y < 0 || y > world.height;
    let mut i: usize = 0;
    while i < pipes.len()
        invariant
            0 <= i <= pipes@.len(),
            dead == (y < 0 || y > world.height || exists|j: int|
                0 <= j < i && blocked(y as int, #[trigger] pipes@[j])),
        decreases pipes@.len() - i,
    {
        if hits_pipe(y, &pipes[i]) {
            dead = true;
        }
        i = i + 1;
    }
    if dead {
        feller.is_alive = false;
        feller.steps_survived = step;
    }
}

/// A feller that is aligned with a pipe survives the pipe when its body fits
/// through the hole, and dies when it does not.
pub proof fn lemma_collision_symmetry(f: Feller, p: Pipe, step: u32, flap: bool, world: World)
    requires
        world.wf(),
        f.wf(world),
        f.is_alive,
        aligned(p),
    ensures
        ({
            let g = stepped(f, seq![p], step, flap, world);
            &&& (inside_hole(g.y as int, p) && 0 <= g.y <= world.height) ==> g.is_alive
            &&& !inside_hole(g.y as int, p) ==> !g.is_alive && g.steps_survived == step
        }),
{
    let g = stepped(f, seq![p], step, flap, world);
    let s = seq![p];
    assert(s[0] == p);
    if inside_hole(g.y as int, p) {
        assert forall|i: int| 0 <= i < s.len() implies !blocked(g.y as int, #[trigger] s[i]) by {}
    } else {
        assert(blocked(g.y as int, s[0]));
    }
}

/// Stepping a dead feller changes nothing: its step of death stays.
pub proof fn lemma_death_freezes(f: Feller, pipes: Seq<Pipe>, step: u32, flap: bool, world: World)
    requires
        !f.is_alive,
    ensures
        stepped(f, pipes, step, flap, world) == f,
        stepped(f, pipes, step, flap, world).steps_survived == f.steps_survived,
{
}

} // verus!
