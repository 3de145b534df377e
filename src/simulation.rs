use vstd::prelude::*;
use rand::rngs::StdRng;
use crate::feller::stepped;
use crate::pipe::{moved, pipes_wf, simulate_pipes, spaced, with_spawn, Pipe};
use crate::population::{is_next_generation, Population, POPULATION_SIZE};
use crate::world::World;

verus! {

/// Fewest simulation steps per frame.
pub const MIN_STEPS_PER_FRAME: usize = 1;

/// Most simulation steps per frame.
pub const MAX_STEPS_PER_FRAME: usize = 100;

/// A request to change the number of simulation steps per frame.
#[derive(Clone, Copy, Debug, PartialEq, Eq, Structural)]
pub enum SpeedKey {
    /// One step more.
    Faster,
    /// One step fewer.
    Slower,
    /// Back to one step.
    Reset,
    /// Ten steps more.
    MuchFaster,
}

/// The number of steps per frame after the request, limited to
/// `[MIN_STEPS_PER_FRAME, MAX_STEPS_PER_FRAME]`.
pub open spec fn speed_after(current: int, key: Option<SpeedKey>) -> int {
    let raw = match key {
        Some(SpeedKey::Faster) => current + 1,
        Some(SpeedKey::Slower) => current - 1,
        Some(SpeedKey::Reset) => 1,
        Some(SpeedKey::MuchFaster) => current + 10,
        None => current,
    };
    if raw < MIN_STEPS_PER_FRAME {
        MIN_STEPS_PER_FRAME as int
    } else if raw > MAX_STEPS_PER_FRAME {
        MAX_STEPS_PER_FRAME as int
    } else {
        raw
    }
}

/// Applies a speed request to the number of steps per frame.
pub fn adjust_speed(current: usize, key: Option<SpeedKey>) -> (r: usize)
    ensures
        r == speed_after(current as int, key),
        MIN_STEPS_PER_FRAME <= r <= MAX_STEPS_PER_FRAME,
{
    let c = if current > MAX_STEPS_PER_FRAME { MAX_STEPS_PER_FRAME + 20 } else { current };
    let raw: usize = match key {
        Some(SpeedKey::Faster) => c + 1,
        Some(SpeedKey::Slower) => if c == 0 { 0 } else { c - 1 },
        Some(SpeedKey::Reset) => 1,
        Some(SpeedKey::MuchFaster) => c + 10,
        None => c,
    };
    if raw < MIN_STEPS_PER_FRAME {
        MIN_STEPS_PER_FRAME
    } else if raw > MAX_STEPS_PER_FRAME {
        MAX_STEPS_PER_FRAME
    } else {
        raw
    }
}

/// The whole simulation: the pipes, the current generation of fellers, the
/// step within the generation and the generation's number.
pub struct Simulation {
    pub world: World,
    pub pipes: Vec<Pipe>,
    pub population: Population,
    pub steps: u32,
    pub generation: u64,
}

impl Simulation {
    /// The world is valid, the pipes are well formed and spaced, and the
    /// population is well formed and of full size.
    pub open spec fn wf(&self) -> bool {
        &&& self.world.wf()
        &&& pipes_wf(self.pipes@, self.world)
        &&& spaced(self.pipes@)
        &&& self.population.wf(self.world)
        &&& self.population.fellers@.len() == POPULATION_SIZE
    }

    /// The first generation of new fellers, with no pipes yet.
    pub fn new(world: &World) -> (s: Simulation)
        requires
            world.wf(),
        ensures
            s.wf(),
            s.world == *world,
            s.pipes@.len() == 0,
            s.steps == 0,
            s.generation == 1,
            forall|i: int| 0 <= i < POPULATION_SIZE ==> #[trigger] s.population.fellers@[i].is_fresh(*world),
    {
        Simulation {
            world: *world,
            pipes: Vec::new(),
            population: Population::new(POPULATION_SIZE, world),
            steps: 0,
            generation: 1,
        }
    }

    /// First half of a step: moves the pipes, which may spawn one.
    /// The controllers decide on the pipes as they are after this.
    pub fn advance_pipes(&mut self, rng: &mut StdRng)
        requires
            old(self).wf(),
        ensures
            final(self).wf(),
            final(self).world == old(self).world,
            final(self).population == old(self).population,
            final(self).steps == old(self).steps,
            final(self).generation == old(self).generation,
            exists|spawn: Option<Pipe>|
                {
                    &&& spawn matches Some(p) ==> p.is_fresh(old(self).world)
                    &&& old(self).pipes@.len() == 0 ==> spawn is Some
                    &&& final(self).pipes@ == moved(with_spawn(old(self).pipes@, spawn, old(self).world))
                },
    {
        let world = self.world;
        simulate_pipes(&mut self.pipes, rng, &world);
    }

    /// Second half of a step: moves every living feller, `flaps[i]` being
    /// the decision of the controller of feller `i`, then counts the step
    /// (the count stops at `u32::MAX`).
    pub fn step_fellers(&mut self, flaps: &Vec<bool>)
        requires
            old(self).wf(),
            flaps@.len() == POPULATION_SIZE,
        ensures
            final(self).wf(),
            final(self).world == old(self).world,
            final(self).pipes == old(self).pipes,
            final(self).generation == old(self).generation,
            final(self).steps == if old(self).steps < u32::MAX { old(self).steps + 1 } else { old(self).steps as int },
            forall|i: int|
                0 <= i < POPULATION_SIZE ==> #[trigger] final(self).population.fellers@[i] == stepped(
                    old(self).population.fellers@[i],
                    old(self).pipes@,
                    old(self).steps,
                    flaps@[i],
                    old(self).world,
                ),
    {
        let world = self.world;
        self.population.simulate_fellers(&self.pipes, self.steps, flaps, &world);
        if self.steps < u32::MAX {
            self.steps = self.steps + 1;
        }
    }

    /// Ends the generation where all of its fellers have died: breeds the
    /// next one, clears the pipes, resets the step count and counts the
    /// generation (the count stops at `u64::MAX`). Returns each new feller's
    /// parent as [`Population::from_predecessors`] does, or `None`, with
    /// nothing changed, while a feller lives.
    pub fn next_generation(&mut self, rng: &mut StdRng) -> (r: Option<Vec<Option<usize>>>)
        requires
            old(self).wf(),
        ensures
            final(self).wf(),
            final(self).world == old(self).world,
            (exists|i: int|
                0 <= i < old(self).population.fellers@.len()
                    && (#[trigger] old(self).population.fellers@[i]).is_alive) ==> r is None
                && *final(self) == *old(self),
            (forall|i: int|
                0 <= i < old(self).population.fellers@.len()
                    ==> !(#[trigger] old(self).population.fellers@[i]).is_alive) ==> r is Some,
            r matches Some(lineage) ==> {
                &&& is_next_generation(
                    old(self).population.fellers@,
                    final(self).population.fellers@,
                    lineage@,
                    old(self).world,
                )
                &&& final(self).pipes@.len() == 0
                &&& final(self).steps == 0
                &&& final(self).generation == if old(self).generation < u64::MAX {
                    old(self).generation + 1
                } else {
                    old(self).generation as int
                }
            },
    {
        if self.population.is_alive() {
            return None;
        }
        let world = self.world;
        let mut old_population = Population { fellers: Vec::new() };
        std::mem::swap(&mut old_population, &mut self.population);
        let (next, lineage) = Population::from_predecessors(old_population, rng, &world);
        self.population = next;
        self.pipes = Vec::new();
        self.steps = 0;
        if self.generation < u64::MAX {
            self.generation = self.generation + 1;
        }
        Some(lineage)
    }
}

} // verus!
