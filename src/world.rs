use vstd::prelude::*;

verus! {

/// Speed at which the pipes move, per simulation step.
pub const HSPEED: i64 = 80;

/// Maximum vertical speed of a feller, in either direction.
pub const FELLER_MAX_SPEED: i64 = 200;

/// Downward acceleration added to a feller's speed at each step.
pub const GRAVITY: i64 = 2;

/// Upward impulse of a flap.
pub const LIFT: i64 = 200;

/// Width of a pipe.
pub const PIPE_WIDTH: i64 = 4000;

/// Smallest height of a pipe's hole.
pub const PIPE_MIN_APERTURE: i64 = 8000;

/// Largest height of a pipe's hole (exclusive).
pub const PIPE_MAX_APERTURE: i64 = 16000;

/// Smallest top edge of a pipe's hole.
pub const PIPE_MIN_GAP_TOP: i64 = 10000;

/// Largest top edge of a pipe's hole (exclusive).
pub const PIPE_MAX_GAP_TOP: i64 = 20000;

/// Smallest horizontal distance between two pipes.
pub const PIPE_MIN_DISTANCE: i64 = 16000;

/// A pipe is spawned at a step with probability
/// `PIPE_SPAWN_CHANCE / PIPE_SPAWN_OUT_OF`.
pub const PIPE_SPAWN_CHANCE: u128 = 2;

/// See [`PIPE_SPAWN_CHANCE`].
pub const PIPE_SPAWN_OUT_OF: u128 = 1000;

/// Horizontal position of every feller.
pub const FELLER_X: i64 = 4000;

/// Body radius of a feller.
pub const FELLER_R: i64 = 2000;

/// Largest width or height of a world; keeps all arithmetic far from
/// the limits of `i64`.
pub const MAX_WORLD_SIZE: i64 = 1_000_000_000;

/// The size of the area the fellers fly in. The origin is the top left
/// corner, and `y` grows downwards.
#[derive(Clone, Copy, Debug, PartialEq, Eq, Structural)]
pub struct World {
    pub width: i64,
    pub height: i64,
}

impl World {
    /// Both dimensions are positive and within [`MAX_WORLD_SIZE`].
    pub open spec fn wf(&self) -> bool {
        &&& 0 < self.width <= MAX_WORLD_SIZE
        &&& 0 < self.height <= MAX_WORLD_SIZE
    }

    /// The world of the given size; `None` where a dimension is not positive
    /// or exceeds [`MAX_WORLD_SIZE`].
    pub fn new(width: i64, height: i64) -> (r: Option<World>)
        ensures
            r matches Some(w) ==> w.width == width && w.height == height && w.wf(),
            r is Some <==> (0 < width <= MAX_WORLD_SIZE && 0 < height <= MAX_WORLD_SIZE),
    {
        if 0 < width && width <= MAX_WORLD_SIZE && 0 < height && height <= MAX_WORLD_SIZE {
            Some(World { width, height })
        } else {
            None
        }
    }
}

} // verus!
