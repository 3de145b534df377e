use vstd::prelude::*;
use rand::rngs::StdRng;
use crate::rng::random_below;
use crate::world::{
    World, HSPEED, PIPE_WIDTH, PIPE_MIN_APERTURE, PIPE_MAX_APERTURE, PIPE_MIN_GAP_TOP,
    PIPE_MAX_GAP_TOP, PIPE_MIN_DISTANCE, PIPE_SPAWN_CHANCE, PIPE_SPAWN_OUT_OF,
};

verus! {

/// A pipe: a vertical barrier with a hole that the fellers must fly through.
#[derive(Clone, Copy, Debug, PartialEq, Eq, Structural)]
pub struct Pipe {
    /// Left edge of the pipe.
    pub x: i64,
    /// Top edge of the hole.
    pub y1: i64,
    /// Bottom edge of the hole.
    pub y2: i64,
}

impl Pipe {
    /// The pipe is (partly) on screen, not right of the world's edge,
    /// and its hole is not empty.
    pub open spec fn wf(&self, world: World) -> bool {
        &&& -PIPE_WIDTH < self.x <= world.width
        &&& self.y1 < self.y2
    }

    /// A pipe as it is spawned: at the right edge of the world, with the
    /// top of its hole and the hole's height in their bands.
    pub open spec fn is_fresh(&self, world: World) -> bool {
        &&& self.x == world.width
        &&& PIPE_MIN_GAP_TOP <= self.y1 < PIPE_MAX_GAP_TOP
        &&& PIPE_MIN_APERTURE <= self.y2 - self.y1 < PIPE_MAX_APERTURE
    }

    /// Creates a pipe at the right edge of the world with a randomized hole.
    pub fn random(rng: &mut StdRng, world: &World) -> (p: Pipe)
        requires
            world.wf(),
        ensures
            p.is_fresh(*world),
            p.wf(*world),
    {
        let top = random_below(rng, (PIPE_MAX_GAP_TOP - PIPE_MIN_GAP_TOP) as u128);
        let aperture = random_below(rng, (PIPE_MAX_APERTURE - PIPE_MIN_APERTURE) as u128);
        let y1 = PIPE_MIN_GAP_TOP + top as i64;
        let y2 = y1 + PIPE_MIN_APERTURE + aperture as i64;
        Pipe { x: world.width, y1, y2 }
    }
}

/// Every pipe of `s` is well formed.
pub open spec fn pipes_wf(s: Seq<Pipe>, world: World) -> bool {
    forall|i: int| 0 <= i < s.len() ==> #[trigger] s[i].wf(world)
}

/// Any two pipes of `s` stand at least [`PIPE_MIN_DISTANCE`] apart, in
/// ascending order of `x`.
pub open spec fn spaced(s: Seq<Pipe>) -> bool {
    forall|i: int, j: int| 0 <= i < j < s.len() ==> s[j].x - s[i].x >= PIPE_MIN_DISTANCE
}

/// The pipe one step later.
pub open spec fn shifted(p: Pipe) -> Pipe {
    Pipe { x: (p.x - HSPEED) as i64, y1: p.y1, y2: p.y2 }
}

/// The pipe's right edge is still right of the world's left edge.
pub open spec fn on_screen(p: Pipe) -> bool {
    p.x + PIPE_WIDTH > 0
}

/// The pipes of `s` one step later, without those that have left the screen,
/// in their order.
pub open spec fn moved(s: Seq<Pipe>) -> Seq<Pipe>
    decreases s.len(),
{
    if s.len() == 0 {
        seq![]
    } else {
        let rest = moved(s.drop_last());
        let p = shifted(s.last());
        if on_screen(p) {
            rest.push(p)
        } else {
            rest
        }
    }
}

/// A new pipe may enter: there is none, or the last one has moved at least
/// [`PIPE_MIN_DISTANCE`] away from the right edge.
pub open spec fn may_spawn(s: Seq<Pipe>, world: World) -> bool {
    s.len() == 0 || s.last().x + PIPE_MIN_DISTANCE < world.width
}

/// The pipes with the offered new pipe added at the end, where one may enter.
pub open spec fn with_spawn(s: Seq<Pipe>, spawn: Option<Pipe>, world: World) -> Seq<Pipe> {
    match spawn {
        Some(p) => if may_spawn(s, world) {
            s.push(p)
        } else {
            s
        },
        None => s,
    }
}

/// Whether a new pipe may enter after the given ones.
pub fn spawn_allowed(pipes: &Vec<Pipe>, world: &World) -> (r: bool)
    requires
        world.wf(),
        pipes_wf(pipes@, *world),
    ensures
        r == may_spawn(pipes@, *world),
{
    if pipes.len() == 0 {
        true
    } else {
        let last = pipes[pipes.len() - 1];
        proof {
            assert(pipes@[pipes@.len() - 1].wf(*world));
        }
        last.x + PIPE_MIN_DISTANCE < world.width
    }
}

/// Moves the pipes one step: adds `spawn` at the end where a new pipe may
/// enter, shifts every pipe left by [`HSPEED`], and drops those that have
/// left the screen.
pub fn update_pipes(pipes: &mut Vec<Pipe>, spawn: Option<Pipe>, world: &World)
    requires
        world.wf(),
        pipes_wf(old(pipes)@, *world),
        spawn matches Some(p) ==> p.wf(*world),
    ensures
        final(pipes)@ == moved(with_spawn(old(pipes)@, spawn, *world)),
        pipes_wf(final(pipes)@, *world),
{
    if let Some(p) = spawn {
        if spawn_allowed(pipes, world) {
            pipes.push(p);
        }
    }
    assert(pipes@ == with_spawn(old(pipes)@, spawn, *world));
    let mut kept: Vec<Pipe> = Vec::new();
    let mut i: usize = 0;
    while i < pipes.len()
        invariant
            0 <= i <= pipes@.len(),
            world.wf(),
            pipes_wf(pipes@, *world),
            kept@ == moved(pipes@.subrange(0, i as int)),
        decreases pipes@.len() - i,
    {
        let p = pipes[i];
        proof {
            assert(pipes@[i as int].wf(*world));
            assert(pipes@.subrange(0, i + 1).drop_last() =~= pipes@.subrange(0, i as int));
        }
        let q = Pipe { x: p.x - HSPEED, y1: p.y1, y2: p.y2 };
        if q.x + PIPE_WIDTH > 0 {
            kept.push(q);
        }
        i = i + 1;
    }
    proof {
        assert(pipes@.subrange(0, pipes@.len() as int) =~= pipes@);
        lemma_moved_from(pipes@);
        let m = moved(pipes@);
        assert forall|k: int| 0 <= k < m.len() implies #[trigger] m[k].wf(*world) by {
            let j = choose|j: int| 0 <= j < pipes@.len() && m[k] == shifted(#[trigger] pipes@[j]);
            assert(pipes@[j].wf(*world));
        }
    }
    *pipes = kept;
}

/// Every pipe of `moved(s)` is a pipe of `s` one step later, and on screen.
proof fn lemma_moved_from(s: Seq<Pipe>)
    ensures
        forall|k: int|
            0 <= k < moved(s).len() ==> on_screen(#[trigger] moved(s)[k]) && exists|i: int|
                0 <= i < s.len() && moved(s)[k] == shifted(#[trigger] s[i]),
    decreases s.len(),
{
    if s.len() > 0 {
        let t = s.drop_last();
        lemma_moved_from(t);
        assert forall|k: int| 0 <= k < moved(s).len() implies on_screen(#[trigger] moved(s)[k])
            && exists|i: int| 0 <= i < s.len() && moved(s)[k] == shifted(#[trigger] s[i]) by {
            if k < moved(t).len() {
                let i = choose|i: int| 0 <= i < t.len() && moved(t)[k] == shifted(#[trigger] t[i]);
                assert(moved(s)[k] == moved(t)[k]);
                assert(s[i] == t[i]);
            } else {
                assert(moved(s)[k] == shifted(s[s.len() - 1]));
            }
        }
    }
}

/// Every pipe of `s` that is still on screen one step later is kept.
proof fn lemma_moved_keeps(s: Seq<Pipe>)
    ensures
        forall|i: int|
            0 <= i < s.len() && on_screen(shifted(#[trigger] s[i])) ==> moved(s).contains(
                shifted(s[i]),
            ),
    decreases s.len(),
{
    if s.len() > 0 {
        let t = s.drop_last();
        lemma_moved_keeps(t);
        assert forall|i: int| 0 <= i < s.len() && on_screen(shifted(#[trigger] s[i])) implies moved(
            s,
        ).contains(shifted(s[i])) by {
            if i < s.len() - 1 {
                assert(t[i] == s[i]);
                assert(moved(t).contains(shifted(t[i])));
                let k = choose|k: int| 0 <= k < moved(t).len() && moved(t)[k] == shifted(t[i]);
                if on_screen(shifted(s.last())) {
                    assert(moved(s)[k] == moved(t)[k]);
                } else {
                    assert(moved(s) == moved(t));
                }
            } else {
                assert(moved(s)[moved(s).len() - 1] == shifted(s[i]));
            }
        }
    }
}

/// Shifting and dropping pipes keeps them spaced.
proof fn lemma_moved_spaced(s: Seq<Pipe>, world: World)
    requires
        spaced(s),
        pipes_wf(s, world),
    ensures
        spaced(moved(s)),
    decreases s.len(),
{
    if s.len() > 0 {
        let t = s.drop_last();
        assert(spaced(t));
        assert(pipes_wf(t, world)) by {
            assert forall|i: int| 0 <= i < t.len() implies #[trigger] t[i].wf(world) by {
                assert(t[i] == s[i]);
            }
        }
        lemma_moved_spaced(t, world);
        lemma_moved_from(t);
        let n = s.len() - 1;
        if on_screen(shifted(s[n])) {
            let m = moved(s);
            assert forall|a: int, b: int| 0 <= a < b < m.len() implies m[b].x - m[a].x
                >= PIPE_MIN_DISTANCE by {
                assert(m[a] == moved(t)[a]);
                if b < m.len() - 1 {
                    assert(m[b] == moved(t)[b]);
                } else {
                    let i = choose|i: int|
                        0 <= i < t.len() && moved(t)[a] == shifted(#[trigger] t[i]);
                    assert(t[i] == s[i]);
                    assert(m[b] == shifted(s[n]));
                    assert(s[n].x - s[i].x >= PIPE_MIN_DISTANCE);
                    assert(s[n].wf(world) && s[i].wf(world));
                }
            }
        }
    }
}

/// Pipes stay at least [`PIPE_MIN_DISTANCE`] apart from one step to the next,
/// where new pipes enter at the right edge of the world.
pub proof fn lemma_obstacle_spacing(s: Seq<Pipe>, spawn: Option<Pipe>, world: World)
    requires
        spaced(s),
        pipes_wf(s, world),
        spawn matches Some(p) ==> p.wf(world) && p.x == world.width,
    ensures
        spaced(moved(with_spawn(s, spawn, world))),
{
    let u = with_spawn(s, spawn, world);
    if let Some(p) = spawn {
        if may_spawn(s, world) {
            assert forall|i: int, j: int| 0 <= i < j < u.len() implies u[j].x - u[i].x
                >= PIPE_MIN_DISTANCE by {
                if j == s.len() && i < s.len() - 1 {
                    assert(s[s.len() - 1].x - s[i].x >= PIPE_MIN_DISTANCE);
                }
            }
            assert forall|i: int| 0 <= i < u.len() implies #[trigger] u[i].wf(world) by {
                if i < s.len() {
                    assert(u[i] == s[i]);
                }
            }
        }
    }
    lemma_moved_spaced(u, world);
}

/// A pipe is among the pipes one step later exactly when it is one of the
/// earlier pipes shifted and its right edge is still right of the world's
/// left edge; a pipe that has left is gone.
pub proof fn lemma_obstacle_retirement(s: Seq<Pipe>)
    ensures
        forall|q: Pipe|
            #[trigger] moved(s).contains(q) <==> (on_screen(q) && exists|i: int|
                0 <= i < s.len() && q == shifted(#[trigger] s[i])),
{
    lemma_moved_from(s);
    lemma_moved_keeps(s);
    assert forall|q: Pipe|
        #[trigger] moved(s).contains(q) <==> (on_screen(q) && exists|i: int|
            0 <= i < s.len() && q == shifted(#[trigger] s[i])) by {
        if moved(s).contains(q) {
            let k = choose|k: int| 0 <= k < moved(s).len() && moved(s)[k] == q;
            assert(on_screen(moved(s)[k]));
        }
    }
}

/// Advances the pipes by one step: offers a new pipe (always where there is
/// none, else with probability `PIPE_SPAWN_CHANCE / PIPE_SPAWN_OUT_OF`),
/// which enters only where [`spawn_allowed`] holds, then moves the pipes as
/// [`update_pipes`] does.
pub fn simulate_pipes(pipes: &mut Vec<Pipe>, rng: &mut StdRng, world: &World)
    requires
        world.wf(),
        pipes_wf(old(pipes)@, *world),
    ensures
        exists|spawn: Option<Pipe>|
            {
                &&& spawn matches Some(p) ==> p.is_fresh(*world)
                &&& old(pipes)@.len() == 0 ==> spawn is Some
                &&& final(pipes)@ == moved(with_spawn(old(pipes)@, spawn, *world))
            },
        pipes_wf(final(pipes)@, *world),
        spaced(old(pipes)@) ==> spaced(final(pipes)@),
        old(pipes)@.len() == 0 ==> final(pipes)@.len() == 1,
{
    let wanted = pipes.len() == 0 || random_below(rng, PIPE_SPAWN_OUT_OF) < PIPE_SPAWN_CHANCE;
    let spawn = if wanted && spawn_allowed(pipes, world) {
        Some(Pipe::random(rng, world))
    } else {
        None
    };
    let ghost before = pipes@;
    update_pipes(pipes, spawn, world);
    proof {
        if spaced(before) {
            lemma_obstacle_spacing(before, spawn, *world);
        }
        if before.len() == 0 {
            let u = with_spawn(before, spawn, *world);
            assert(u.drop_last() =~= Seq::<Pipe>::empty());
            assert(moved(u.drop_last()) =~= Seq::<Pipe>::empty());
        }
    }
}

} // verus!
