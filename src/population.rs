use vstd::prelude::*;
use rand::rngs::StdRng;
use crate::feller::{simulate_feller, stepped, Feller};
use crate::pipe::Pipe;
use crate::rng::random_below;
use crate::selection::{
    draw_bound, draw_range, elite_indices, elite_weights, fitness, is_elite, lemma_elite_weight_fits,
    pick_parent, picks,
};
use crate::world::World;

verus! {

/// Number of fellers in each generation.
pub const POPULATION_SIZE: usize = 150;

/// Share of a generation, in percent (rounded up), whose fellers may
/// become parents.
pub const ELITE_PERCENT: usize = 5;

/// Share of the next generation, in percent (rounded up), that is bred
/// from the elite; the rest is new.
pub const OFFSPRING_PERCENT: usize = 80;

/// Number of fellers that may become parents.
pub const ELITE_SIZE: usize = (POPULATION_SIZE * ELITE_PERCENT + 99) / 100;

/// Number of fellers of a generation that are bred from the elite.
pub const OFFSPRING_SIZE: usize = (POPULATION_SIZE * OFFSPRING_PERCENT + 99) / 100;

/// The number of living fellers.
pub open spec fn alive_count(fs: Seq<Feller>) -> nat
    decreases fs.len(),
{
    if fs.len() == 0 {
        0
    } else {
        alive_count(fs.drop_last()) + if fs.last().is_alive { 1nat } else { 0nat }
    }
}

/// The selection weights of an elite: the fitness of each of its fellers.
pub open spec fn elite_weight_seq(fs: Seq<Feller>, e: Seq<usize>) -> Seq<u128> {
    Seq::new(e.len(), |i: int| fitness(fs[e[i] as int]) as u128)
}

/// `parent` names a feller of the elite `e` that some draw of the
/// roulette wheel over the elite's weights picks.
pub open spec fn bred_from(fs: Seq<Feller>, e: Seq<usize>, parent: Option<usize>) -> bool {
    exists|d: nat, j: int|
        0 <= j < e.len() && d < draw_bound(elite_weight_seq(fs, e)) && #[trigger] picks(
            elite_weight_seq(fs, e),
            d,
            j,
        ) && parent == Some(e[j])
}

/// The next generation as bred from the fellers `fs`: `lineage` gives each
/// new feller's parent, as an index into `fs`, or `None` for a new one.
/// The first [`OFFSPRING_SIZE`] are bred from the elite of `fs` by roulette
/// wheel (where the elite is not empty), the rest are new.
pub open spec fn is_next_generation(fs: Seq<Feller>, next: Seq<Feller>, lineage: Seq<Option<usize>>, world: World) -> bool {
    &&& next.len() == POPULATION_SIZE
    &&& lineage.len() == POPULATION_SIZE
    &&& forall|i: int| 0 <= i < next.len() ==> (#[trigger] next[i]).is_fresh(world) && next[i].wf(world)
    &&& exists|e: Seq<usize>|
        {
            &&& is_elite(fs, e, ELITE_SIZE as nat)
            &&& forall|i: int|
                0 <= i < POPULATION_SIZE ==> if i < OFFSPRING_SIZE && e.len() > 0 {
                    bred_from(fs, e, #[trigger] lineage[i])
                } else {
                    lineage[i] is None
                }
        }
}

/// The fellers of one generation, in a fixed order. Their controllers are
/// kept by the caller in the same order.
pub struct Population {
    pub fellers: Vec<Feller>,
}

impl Population {
    /// Every feller is well formed.
    pub open spec fn wf(&self, world: World) -> bool {
        forall|i: int| 0 <= i < self.fellers@.len() ==> #[trigger] self.fellers@[i].wf(world)
    }

    /// A population of `size` new fellers.
    pub fn new(size: usize, world: &World) -> (p: Population)
        requires
            world.wf(),
        ensures
            p.fellers@.len() == size,
            forall|i: int| 0 <= i < size ==> #[trigger] p.fellers@[i].is_fresh(*world),
            p.wf(*world),
    {
        let mut fellers: Vec<Feller> = Vec::new();
        let mut i: usize = 0;
        while i < size
            invariant
                0 <= i <= size,
                world.wf(),
                fellers@.len() == i,
                forall|j: int| 0 <= j < i ==> #[trigger] fellers@[j].is_fresh(*world),
                forall|j: int| 0 <= j < i ==> #[trigger] fellers@[j].wf(*world),
            decreases size - i,
        {
            fellers.push(Feller::new(world));
            i = i + 1;
        }
        Population { fellers }
    }

    /// Whether at least one feller is still alive.
    pub fn is_alive(&self) -> (r: bool)
        ensures
            r == exists|i: int| 0 <= i < self.fellers@.len() && (#[trigger] self.fellers@[i]).is_alive,
    {
        let mut i: usize = 0;
        while i < self.fellers.len()
            invariant
                0 <= i <= self.fellers@.len(),
                forall|j: int| 0 <= j < i ==> !(#[trigger] self.fellers@[j]).is_alive,
            decreases self.fellers@.len() - i,
        {
            if self.fellers[i].is_alive {
                return true;
            }
            i = i + 1;
        }
        false
    }

    /// The number of fellers that are still alive.
    pub fn survivor_count(&self) -> (r: usize)
        ensures
            r == alive_count(self.fellers@),
    {
        let ghost fs = self.fellers@;
        let mut count: usize = 0;
        let mut i: usize = 0;
        while i < self.fellers.len()
            invariant
                0 <= i <= fs.len(),
                fs == self.fellers@,
                count == alive_count(fs.subrange(0, i as int)),
                count <= i,
            decreases fs.len() - i,
        {
            proof {
                assert(fs.subrange(0, i + 1).drop_last() =~= fs.subrange(0, i as int));
            }
            if self.fellers[i].is_alive {
                count = count + 1;
            }
            i = i + 1;
        }
        proof {
            assert(fs.subrange(0, fs.len() as int) =~= fs);
        }
        count
    }

    /// Moves every living feller by one step; `flaps[i]` is the decision of
    /// the controller of feller `i`.
    pub fn simulate_fellers(&mut self, pipes: &Vec<Pipe>, step: u32, flaps: &Vec<bool>, world: &World)
        requires
            world.wf(),
            old(self).wf(*world),
            flaps@.len() == old(self).fellers@.len(),
        ensures
            final(self).fellers@.len() == old(self).fellers@.len(),
            forall|i: int|
                0 <= i < final(self).fellers@.len() ==> #[trigger] final(self).fellers@[i] == stepped(
                    old(self).fellers@[i],
                    pipes@,
                    step,
                    flaps@[i],
                    *world,
                ),
            final(self).wf(*world),
    {
        let ghost before = self.fellers@;
        let mut i: usize = 0;
        while i < self.fellers.len()
            invariant
                0 <= i <= self.fellers@.len(),
                world.wf(),
                self.fellers@.len() == before.len(),
                flaps@.len() == before.len(),
                forall|j: int| 0 <= j < before.len() ==> #[trigger] self.fellers@[j].wf(*world),
                forall|j: int| 0 <= j < i ==> #[trigger] self.fellers@[j] == stepped(
                    before[j],
                    pipes@,
                    step,
                    flaps@[j],
                    *world,
                ),
                forall|j: int| i <= j < before.len() ==> #[trigger] self.fellers@[j] == before[j],
            decreases before.len() - i,
        {
            let mut f = self.fellers[i];
            simulate_feller(&mut f, pipes, step, flaps[i], world);
            self.fellers.set(i, f);
            i = i + 1;
        }
    }

    /// Breeds the next generation from this one, which is used up.
    /// The fellers of this one are ranked by fitness, and the first
    /// [`ELITE_SIZE`] of them form the elite. Each of the first
    /// [`OFFSPRING_SIZE`] new fellers gets a parent from the elite by
    /// roulette wheel over the elite's fitness (all alike where that is
    /// zero); the rest get none. All new fellers start fresh.
    /// Returned with the new population is each new feller's parent, as an
    /// index into this generation: its controller is to be a mutated copy of
    /// the parent's, or a new one where there is none.
    pub fn from_predecessors(predecessors: Population, rng: &mut StdRng, world: &World) -> (r: (
        Population,
        Vec<Option<usize>>,
    ))
        requires
            world.wf(),
        ensures
            is_next_generation(predecessors.fellers@, r.0.fellers@, r.1@, *world),
            r.0.wf(*world),
    {
        let fellers = predecessors.fellers;
        let ghost fs = fellers@;
        let elite = elite_indices(&fellers, ELITE_SIZE);
        let weights = elite_weights(&fellers, &elite);
        let ghost w = weights@;
        proof {
            assert(w =~= elite_weight_seq(fs, elite@));
            assert forall|i: int| 0 <= i < w.len() implies #[trigger] w[i] <= u64::MAX by {
                let s = fs[elite@[i] as int].steps_survived as int;
                assert(s * s <= u32::MAX as int * u32::MAX as int) by (nonlinear_arith)
                    requires
                        0 <= s <= u32::MAX,
                ;
            }
            lemma_elite_weight_fits(w);
        }
        let bound = draw_range(&weights);
        let mut next: Vec<Feller> = Vec::new();
        let mut lineage: Vec<Option<usize>> = Vec::new();
        let mut i: usize = 0;
        while i < POPULATION_SIZE
            invariant
                0 <= i <= POPULATION_SIZE,
                world.wf(),
                fs == fellers@,
                w == weights@,
                w == elite_weight_seq(fs, elite@),
                is_elite(fs, elite@, ELITE_SIZE as nat),
                w.len() == elite@.len(),
                crate::selection::weight_sum(w) <= u128::MAX,
                bound == draw_bound(w),
                next@.len() == i,
                lineage@.len() == i,
                forall|j: int| 0 <= j < i ==> (#[trigger] next@[j]).is_fresh(*world) && next@[j].wf(*world),
                forall|j: int|
                    0 <= j < i ==> if j < OFFSPRING_SIZE && elite@.len() > 0 {
                        bred_from(fs, elite@, #[trigger] lineage@[j])
                    } else {
                        lineage@[j] is None
                    },
            decreases POPULATION_SIZE - i,
        {
            if i < OFFSPRING_SIZE && elite.len() > 0 {
                let d = random_below(rng, bound);
                let j = pick_parent(&weights, d);
                lineage.push(Some(elite[j]));
                proof {
                    assert(picks(w, d as nat, j as int));
                    assert(bred_from(fs, elite@, lineage@[i as int]));
                }
            } else {
                lineage.push(None);
            }
            next.push(Feller::new(world));
            i = i + 1;
        }
        (Population { fellers: next }, lineage)
    }
}

} // verus!
