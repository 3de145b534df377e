use vstd::prelude::*;
use crate::feller::Feller;

verus! {

/// The fitness of a feller: the square of the step at which it died.
pub open spec fn fitness(f: Feller) -> nat {
    (f.steps_survived as nat) * (f.steps_survived as nat)
}

/// Feller `a` ranks before feller `b`: it is fitter, or as fit and earlier.
pub open spec fn ranks_before(fs: Seq<Feller>, a: int, b: int) -> bool {
    fitness(fs[a]) > fitness(fs[b]) || (fitness(fs[a]) == fitness(fs[b]) && a < b)
}

/// Every index of `order` ranks before every later one.
pub open spec fn ranked(fs: Seq<Feller>, order: Seq<usize>) -> bool {
    forall|i: int, j: int|
        0 <= i < j < order.len() ==> ranks_before(fs, #[trigger] order[i] as int, #[trigger] order[j] as int)
}

/// `e` lists the `k` best fellers of `fs` (all of them where there are
/// fewer), best first; ties go to the earlier feller.
pub open spec fn is_elite(fs: Seq<Feller>, e: Seq<usize>, k: nat) -> bool {
    &&& e.len() == if k < fs.len() { k } else { fs.len() }
    &&& forall|i: int| 0 <= i < e.len() ==> #[trigger] e[i] < fs.len()
    &&& ranked(fs, e)
    &&& forall|i: int, m: int|
        #![trigger e[i], fs[m]]
        0 <= i < e.len() && 0 <= m < fs.len() && !e.contains(m as usize) ==> ranks_before(
            fs,
            e[i] as int,
            m,
        )
}

/// The sum of the weights.
pub open spec fn weight_sum(w: Seq<u128>) -> nat
    decreases w.len(),
{
    if w.len() == 0 {
        0
    } else {
        weight_sum(w.drop_last()) + w.last() as nat
    }
}

/// The sum of the first `i` weights.
pub open spec fn prefix_sum(w: Seq<u128>, i: int) -> nat {
    weight_sum(w.subrange(0, i))
}

/// The draws are taken from `0..draw_bound(w)`: the total weight, or the
/// number of weights where that is zero.
pub open spec fn draw_bound(w: Seq<u128>) -> nat {
    if weight_sum(w) == 0 {
        w.len()
    } else {
        weight_sum(w)
    }
}

/// Roulette-wheel selection: the draw picks index `r`. With a positive
/// total, each index owns a stretch of draws as long as its weight, in
/// order; with a total of zero, every index owns one draw.
pub open spec fn picks(w: Seq<u128>, draw: nat, r: int) -> bool {
    if weight_sum(w) == 0 {
        r == draw
    } else {
        prefix_sum(w, r) <= draw < prefix_sum(w, r + 1)
    }
}

/// The fitness of a feller: the step at which it died.
pub fn score(f: &Feller) -> (r: u32)
    ensures
        r == f.steps_survived,
{
    f.steps_survived
}

/// The squared score of a feller, its weight in selection.
pub fn squared_score(f: &Feller) -> (r: u64)
    ensures
        r == fitness(*f),
{
    let s = score(f) as u64;
    assert(s * s <= u32::MAX as int * u32::MAX as int) by (nonlinear_arith)
        requires
            s <= u32::MAX,
    ;
    s * s
}

/// Indices of all fellers, best first; ties go to the earlier feller.
pub fn rank_fellers(fellers: &Vec<Feller>) -> (order: Vec<usize>)
    ensures
        order@.len() == fellers@.len(),
        forall|i: int| 0 <= i < order@.len() ==> #[trigger] order@[i] < fellers@.len(),
        forall|m: int| 0 <= m < fellers@.len() ==> #[trigger] order@.contains(m as usize),
        ranked(fellers@, order@),
{
    let ghost fs = fellers@;
    let mut order: Vec<usize> = Vec::new();
    let mut i: usize = 0;
    while i < fellers.len()
        invariant
            0 <= i <= fs.len(),
            fs == fellers@,
            order@.len() == i,
            forall|q: int| 0 <= q < order@.len() ==> #[trigger] order@[q] < i,
            forall|m: int| 0 <= m < i ==> #[trigger] order@.contains(m as usize),
            ranked(fs, order@),
        decreases fs.len() - i,
    {
        let w = squared_score(&fellers[i]);
        let mut p: usize = 0;
        while p < order.len()
            invariant
                0 <= p <= order@.len(),
                i < fs.len(),
                fs == fellers@,
                w == fitness(fs[i as int]),
                forall|q: int| 0 <= q < order@.len() ==> #[trigger] order@[q] < i,
                forall|q: int| 0 <= q < p ==> ranks_before(fs, #[trigger] order@[q] as int, i as int),
            ensures
                0 <= p <= order@.len(),
                p < order@.len() ==> fitness(fs[order@[p as int] as int]) < w,
                forall|q: int| 0 <= q < p ==> ranks_before(fs, #[trigger] order@[q] as int, i as int),
            decreases order@.len() - p,
        {
            if squared_score(&fellers[order[p]]) < w {
                break;
            }
            p = p + 1;
        }
        let ghost old_order = order@;
        proof {
            old_order.insert_ensures(p as int, i);
        }
        order.insert(p, i);
        proof {
            let o = order@;
            assert forall|a: int, b: int| 0 <= a < b < o.len() implies ranks_before(
                fs,
                #[trigger] o[a] as int,
                #[trigger] o[b] as int,
            ) by {
                if b < p {
                    assert(o[a] == old_order[a] && o[b] == old_order[b]);
                } else if b == p {
                    assert(o[a] == old_order[a]);
                } else if a == p {
                    assert(o[b] == old_order[b - 1]);
                    assert(ranks_before(fs, o[a] as int, old_order[p as int] as int));
                    if b - 1 > p {
                        assert(ranks_before(fs, old_order[p as int] as int, old_order[b - 1] as int));
                    }
                } else if a < p {
                    assert(o[a] == old_order[a] && o[b] == old_order[b - 1]);
                } else {
                    assert(o[a] == old_order[a - 1] && o[b] == old_order[b - 1]);
                }
            }
            assert forall|m: int| 0 <= m < i + 1 implies #[trigger] o.contains(m as usize) by {
                if m < i {
                    assert(old_order.contains(m as usize));
                    let q = choose|q: int| 0 <= q < old_order.len() && old_order[q] == m as usize;
                    if q < p {
                        assert(o[q] == m as usize);
                    } else {
                        assert(o[q + 1] == m as usize);
                    }
                } else {
                    assert(o[p as int] == m as usize);
                }
            }
            assert forall|q: int| 0 <= q < o.len() implies #[trigger] o[q] < i + 1 by {
                if q < p {
                    assert(o[q] == old_order[q]);
                } else if q > p {
                    assert(o[q] == old_order[q - 1]);
                }
            }
        }
        i = i + 1;
    }
    order
}

/// The indices of the `k` best fellers (all of them where there are fewer),
/// best first; ties go to the earlier feller.
pub fn elite_indices(fellers: &Vec<Feller>, k: usize) -> (e: Vec<usize>)
    ensures
        is_elite(fellers@, e@, k as nat),
{
    let mut order = rank_fellers(fellers);
    let ghost all = order@;
    order.truncate(k);
    proof {
        let fs = fellers@;
        let e = order@;
        assert(forall|i: int| 0 <= i < e.len() ==> e[i] == all[i]);
        assert forall|i: int, m: int|
            #![trigger e[i], fs[m]]
            0 <= i < e.len() && 0 <= m < fs.len() && !e.contains(m as usize) implies ranks_before(
            fs,
            e[i] as int,
            m,
        ) by {
            assert(all.contains(m as usize));
            let q = choose|q: int| 0 <= q < all.len() && all[q] == m as usize;
            if q < e.len() {
                assert(e[q] == m as usize);
            }
            assert(ranks_before(fs, all[i] as int, all[q] as int));
        }
    }
    order
}

/// The index that a draw picks, where there is one.
pub open spec fn slot_owner(w: Seq<u128>, draw: nat) -> int {
    choose|i: int| 0 <= i < w.len() && picks(w, draw, i)
}

proof fn lemma_prefix_step(w: Seq<u128>, i: int)
    requires
        0 <= i < w.len(),
    ensures
        prefix_sum(w, i + 1) == prefix_sum(w, i) + w[i],
{
    assert(w.subrange(0, i + 1).drop_last() =~= w.subrange(0, i));
}

proof fn lemma_prefix_monotone(w: Seq<u128>, i: int, j: int)
    requires
        0 <= i <= j <= w.len(),
    ensures
        prefix_sum(w, i) <= prefix_sum(w, j),
    decreases j - i,
{
    if i < j {
        lemma_prefix_monotone(w, i, j - 1);
        lemma_prefix_step(w, j - 1);
    }
}

proof fn lemma_prefix_ends(w: Seq<u128>)
    ensures
        prefix_sum(w, 0) == 0,
        prefix_sum(w, w.len() as int) == weight_sum(w),
{
    assert(w.subrange(0, 0) =~= Seq::<u128>::empty());
    assert(w.subrange(0, w.len() as int) =~= w);
}

/// Weights of at most `u64::MAX` each add up to at most their number times that.
proof fn lemma_weight_sum_bound(w: Seq<u128>)
    requires
        forall|i: int| 0 <= i < w.len() ==> #[trigger] w[i] <= u64::MAX,
    ensures
        weight_sum(w) <= w.len() * (u64::MAX as nat),
    decreases w.len(),
{
    if w.len() > 0 {
        let t = w.drop_last();
        assert forall|i: int| 0 <= i < t.len() implies #[trigger] t[i] <= u64::MAX by {
            assert(t[i] == w[i]);
        }
        lemma_weight_sum_bound(t);
        let n = w.len() as int;
        assert((n - 1) * (u64::MAX as int) + (u64::MAX as int) == n * (u64::MAX as int))
            by (nonlinear_arith);
        assert(w[n - 1] <= u64::MAX);
    }
}

/// A draw below a positive total weight falls into some index's stretch.
proof fn lemma_slot_exists(w: Seq<u128>, draw: nat)
    requires
        draw < weight_sum(w),
    ensures
        exists|i: int| 0 <= i < w.len() && #[trigger] prefix_sum(w, i) <= draw < prefix_sum(w, i + 1),
    decreases w.len(),
{
    let n = w.len() as int;
    let t = w.drop_last();
    assert(n > 0);
    if draw < weight_sum(t) {
        lemma_slot_exists(t, draw);
        let i = choose|i: int| 0 <= i < t.len() && #[trigger] prefix_sum(t, i) <= draw < prefix_sum(t, i + 1);
        assert(t.subrange(0, i) =~= w.subrange(0, i));
        assert(t.subrange(0, i + 1) =~= w.subrange(0, i + 1));
        assert(prefix_sum(w, i) <= draw < prefix_sum(w, i + 1));
    } else {
        assert(w.subrange(0, n - 1) =~= t);
        assert(w.subrange(0, n) =~= w);
        assert(prefix_sum(w, n - 1) <= draw < prefix_sum(w, n));
    }
}

/// With a positive total weight, each index owns a stretch of draws exactly
/// as long as its weight, the stretches together cover all draws below the
/// total, and no draw is owned twice: each index is picked with chance
/// weight over total, and these chances add up to one.
pub proof fn lemma_selection_mass(w: Seq<u128>)
    requires
        weight_sum(w) > 0,
    ensures
        forall|i: int| 0 <= i < w.len() ==> prefix_sum(w, i + 1) - prefix_sum(w, i) == #[trigger] w[i],
        prefix_sum(w, 0) == 0,
        prefix_sum(w, w.len() as int) == weight_sum(w),
        forall|d: nat|
            d < weight_sum(w) ==> 0 <= #[trigger] slot_owner(w, d) < w.len() && picks(
                w,
                d,
                slot_owner(w, d),
            ),
        forall|d: nat, i: int, j: int|
            0 <= i < w.len() && 0 <= j < w.len() && #[trigger] picks(w, d, i) && #[trigger] picks(
                w,
                d,
                j,
            ) ==> i == j,
{
    lemma_prefix_ends(w);
    assert forall|i: int| 0 <= i < w.len() implies prefix_sum(w, i + 1) - prefix_sum(w, i)
        == #[trigger] w[i] by {
        lemma_prefix_step(w, i);
    }
    assert forall|d: nat| d < weight_sum(w) implies 0 <= #[trigger] slot_owner(w, d) < w.len()
        && picks(w, d, slot_owner(w, d)) by {
        lemma_slot_exists(w, d);
        let i = choose|i: int| 0 <= i < w.len() && #[trigger] prefix_sum(w, i) <= d < prefix_sum(w, i + 1);
        assert(picks(w, d, i));
    }
    assert forall|d: nat, i: int, j: int|
        0 <= i < w.len() && 0 <= j < w.len() && #[trigger] picks(w, d, i) && #[trigger] picks(
            w,
            d,
            j,
        ) implies i == j by {
        if i < j {
            lemma_prefix_monotone(w, i + 1, j);
        } else if j < i {
            lemma_prefix_monotone(w, j + 1, i);
        }
    }
}

/// The squared scores of the elite fellers, in the elite's order.
pub fn elite_weights(fellers: &Vec<Feller>, elite: &Vec<usize>) -> (w: Vec<u128>)
    requires
        forall|i: int| 0 <= i < elite@.len() ==> #[trigger] elite@[i] < fellers@.len(),
    ensures
        w@.len() == elite@.len(),
        forall|i: int| 0 <= i < w@.len() ==> #[trigger] w@[i] == fitness(fellers@[elite@[i] as int]),
{
    let mut w: Vec<u128> = Vec::new();
    let mut i: usize = 0;
    while i < elite.len()
        invariant
            0 <= i <= elite@.len(),
            w@.len() == i,
            forall|j: int| 0 <= j < elite@.len() ==> #[trigger] elite@[j] < fellers@.len(),
            forall|j: int| 0 <= j < i ==> #[trigger] w@[j] == fitness(fellers@[elite@[j] as int]),
        decreases elite@.len() - i,
    {
        w.push(squared_score(&fellers[elite[i]]) as u128);
        i = i + 1;
    }
    w
}

/// The total weight of an elite, which always fits.
pub proof fn lemma_elite_weight_fits(w: Seq<u128>)
    requires
        forall|i: int| 0 <= i < w.len() ==> #[trigger] w[i] <= u64::MAX,
        w.len() <= usize::MAX,
    ensures
        weight_sum(w) <= u128::MAX,
{
    lemma_weight_sum_bound(w);
    let n = w.len() as int;
    assert(n * (u64::MAX as int) <= u128::MAX) by (nonlinear_arith)
        requires
            0 <= n <= usize::MAX,
    ;
}

/// The sum of the weights.
pub fn total_weight(weights: &Vec<u128>) -> (r: u128)
    requires
        weight_sum(weights@) <= u128::MAX,
    ensures
        r == weight_sum(weights@),
{
    let ghost w = weights@;
    let mut acc: u128 = 0;
    let mut i: usize = 0;
    proof {
        lemma_prefix_ends(w);
    }
    while i < weights.len()
        invariant
            0 <= i <= w.len(),
            w == weights@,
            weight_sum(w) <= u128::MAX,
            acc == prefix_sum(w, i as int),
        decreases w.len() - i,
    {
        proof {
            lemma_prefix_step(w, i as int);
            lemma_prefix_monotone(w, i + 1, w.len() as int);
            lemma_prefix_ends(w);
        }
        acc = acc + weights[i];
        i = i + 1;
    }
    proof {
        lemma_prefix_ends(w);
    }
    acc
}

/// The upper bound (exclusive) of the draws for [`pick_parent`].
pub fn draw_range(weights: &Vec<u128>) -> (r: u128)
    requires
        weight_sum(weights@) <= u128::MAX,
    ensures
        r == draw_bound(weights@),
{
    let total = total_weight(weights);
    if total == 0 {
        weights.len() as u128
    } else {
        total
    }
}

/// Roulette-wheel selection: the index in whose stretch of draws `draw`
/// falls, each index owning as many draws as its weight, in order.
pub fn roulette_pick(weights: &Vec<u128>, draw: u128) -> (r: usize)
    requires
        weight_sum(weights@) <= u128::MAX,
        draw < weight_sum(weights@),
    ensures
        r < weights@.len(),
        prefix_sum(weights@, r as int) <= draw < prefix_sum(weights@, r + 1),
{
    let ghost w = weights@;
    proof {
        lemma_prefix_ends(w);
    }
    assert(w.len() > 0);
    let mut acc: u128 = 0;
    let mut i: usize = 0;
    while i < weights.len() - 1
        invariant
            0 <= i < w.len(),
            w == weights@,
            weight_sum(w) <= u128::MAX,
            draw < weight_sum(w),
            acc == prefix_sum(w, i as int),
            acc <= draw,
        decreases w.len() - i,
    {
        proof {
            lemma_prefix_step(w, i as int);
            lemma_prefix_monotone(w, i + 1, w.len() as int);
            lemma_prefix_ends(w);
        }
        if draw < acc + weights[i] {
            return i;
        }
        acc = acc + weights[i];
        i = i + 1;
    }
    proof {
        lemma_prefix_ends(w);
    }
    i
}

/// The elite index that `draw` picks: by roulette wheel over the weights
/// where their total is positive, else the draw itself (all equally likely).
pub fn pick_parent(weights: &Vec<u128>, draw: u128) -> (r: usize)
    requires
        weight_sum(weights@) <= u128::MAX,
        draw < draw_bound(weights@),
    ensures
        r < weights@.len(),
        picks(weights@, draw as nat, r as int),
{
    let total = total_weight(weights);
    if total == 0 {
        let n = weights.len();
        assert(draw < n);
        draw as usize
    } else {
        roulette_pick(weights, draw)
    }
}

} // verus!
