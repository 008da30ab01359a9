//! Selection by fitness: ranking, tournaments and the weights of
//! fitness-proportionate sampling.

use crate::rng::{random_index, sample_pool, sum_of, weighted_pool, pool_weights, GenePool};
use vstd::prelude::*;

verus! {

/// The weight given to the fittest agent in fitness-proportionate sampling.
pub const ROULETTE_SCALE: u64 = 1_000_000;

/// The position `k` occurs in `order`.
pub open spec fn lists(order: Seq<usize>, k: int) -> bool {
    exists|i: int| 0 <= i < order.len() && #[trigger] order[i] == k
}

/// `order` lists every position of `fitness` once, fittest first.
pub open spec fn is_ranking(order: Seq<usize>, fitness: Seq<u64>) -> bool {
    &&& order.len() == fitness.len()
    &&& forall|i: int| 0 <= i < order.len() ==> (#[trigger] order[i]) < fitness.len()
    &&& forall|i: int, j: int| 0 <= i < j < order.len() ==> order[i] != order[j]
    &&& forall|k: int| 0 <= k < fitness.len() ==> #[trigger] lists(order, k)
    &&& forall|i: int, j: int|
        0 <= i <= j < order.len() ==> fitness[order[i] as int] >= fitness[order[j] as int]
}

/// The first entry of a ranking is as fit as any.
pub proof fn lemma_ranking_top(order: Seq<usize>, fitness: Seq<u64>)
    requires
        is_ranking(order, fitness),
        fitness.len() > 0,
    ensures
        forall|k: int| 0 <= k < fitness.len() ==> #[trigger] fitness[k] <= fitness[order[0] as int],
{
    assert forall|k: int| 0 <= k < fitness.len() implies #[trigger] fitness[k]
        <= fitness[order[0] as int] by {
        assert(lists(order, k));
        let i = choose|i: int| 0 <= i < order.len() && #[trigger] order[i] == k;
        assert(fitness[order[0] as int] >= fitness[order[i] as int]);
    }
}

/// Ranks the positions of `fitness`, fittest first; equally fit positions
/// keep their order.
pub fn rank_by_fitness(fitness: &Vec<u64>) -> (order: Vec<usize>)
    ensures
        is_ranking(order@, fitness@),
{
    let n = fitness.len();
    let mut order: Vec<usize> = Vec::new();
    let ghost mut place: Seq<int> = Seq::empty();
    let mut k: usize = 0;
    while k < n
        invariant
            k <= n,
            order.len() == k,
            place.len() == k,
            forall|i: int| 0 <= i < k ==> order[i] == i,
            forall|i: int| 0 <= i < k ==> place[i] == i,
        decreases n - k,
    {
        order.push(k);
        proof {
            place = place.push(k as int);
        }
        k += 1;
    }
    let mut i: usize = 1;
    while i < n
        invariant
            1 <= i,
            n == fitness.len(),
            order.len() == n,
            place.len() == n,
            forall|a: int| 0 <= a < n ==> (#[trigger] order[a]) < n,
            forall|a: int, b: int| 0 <= a < b < n ==> order[a] != order[b],
            forall|p: int| 0 <= p < n ==> 0 <= #[trigger] place[p] < n && order[place[p]] == p,
            forall|a: int, b: int|
                0 <= a <= b < i && b < n ==> fitness[order[a] as int] >= fitness[order[b] as int],
        decreases n - i,
    {
        let mut j: usize = i;
        while j > 0 && fitness[order[j - 1]] < fitness[order[j]]
            invariant
                j <= i < n,
                n == fitness.len(),
                order.len() == n,
                place.len() == n,
                forall|a: int| 0 <= a < n ==> (#[trigger] order[a]) < n,
                forall|a: int, b: int| 0 <= a < b < n ==> order[a] != order[b],
                forall|p: int| 0 <= p < n ==> 0 <= #[trigger] place[p] < n && order[place[p]] == p,
                forall|a: int, b: int|
                    0 <= a <= b <= i && a != j && b != j ==> fitness[order[a] as int]
                        >= fitness[order[b] as int],
                forall|b: int|
                    j < b <= i ==> fitness[order[j as int] as int] > fitness[order[b] as int],
            decreases j,
        {
            let upper = order[j - 1];
            let lower = order[j];
            order[j - 1] = lower;
            order[j] = upper;
            proof {
                place = place.update(lower as int, j - 1).update(upper as int, j as int);
            }
            j -= 1;
        }
        i += 1;
    }
    proof {
        assert forall|p: int| 0 <= p < fitness.len() implies #[trigger] lists(order@, p) by {
            assert(order[place[p]] == p);
        }
    }
    order
}

/// The greatest of the values; zero where there is none.
pub open spec fn max_of(values: Seq<u64>) -> u64
    decreases values.len(),
{
    if values.len() == 0 {
        0
    } else if values.last() > max_of(values.drop_last()) {
        values.last()
    } else {
        max_of(values.drop_last())
    }
}

/// `max_of` bounds every value, and is one of them where there is any.
pub proof fn lemma_max_of(values: Seq<u64>)
    ensures
        forall|i: int| 0 <= i < values.len() ==> values[i] <= max_of(values),
        values.len() > 0 ==> exists|i: int| 0 <= i < values.len() && values[i] == max_of(values),
    decreases values.len(),
{
    if values.len() > 0 {
        let front = values.drop_last();
        lemma_max_of(front);
        assert forall|i: int| 0 <= i < values.len() implies values[i] <= max_of(values) by {
            if i < front.len() {
                assert(values[i] == front[i]);
            }
        }
        if values.last() > max_of(front) || front.len() == 0 {
            assert(values[values.len() - 1] == max_of(values));
        } else {
            let i = choose|i: int| 0 <= i < front.len() && front[i] == max_of(front);
            assert(values[i] == max_of(values));
        }
    }
}

/// The greatest of the values; zero where there is none.
pub fn max_value(values: &Vec<u64>) -> (max: u64)
    ensures
        max == max_of(values@),
{
    let mut max: u64 = 0;
    let mut i: usize = 0;
    while i < values.len()
        invariant
            i <= values.len(),
            max == max_of(values@.take(i as int)),
        decreases values.len() - i,
    {
        assert(values@.take(i + 1).drop_last() =~= values@.take(i as int));
        if values[i] > max {
            max = values[i];
        }
        i += 1;
    }
    assert(values@.take(values.len() as int) =~= values@);
    max
}

/// The sampling weight of a fitness `f` in a population whose greatest
/// fitness is `max`: the share `f / max`, scaled to `ROULETTE_SCALE` and
/// rounded down. A fitness held at `u64::MAX` is unbounded and gets no
/// weight.
pub open spec fn roulette_weight(f: u64, max: u64) -> u64 {
    if f == u64::MAX || max == 0 {
        0
    } else {
        (f * ROULETTE_SCALE / (max as int)) as u64
    }
}

/// The sampling weights of a population, position by position.
pub open spec fn roulette_weights(fitness: Seq<u64>) -> Seq<u64> {
    Seq::new(fitness.len(), |i: int| roulette_weight(fitness[i], max_of(fitness)))
}

/// Whether fitness-proportionate sampling can be set up: the weights can be
/// added up in a `u64` whatever they are, and they do not all vanish.
pub open spec fn roulette_available(fitness: Seq<u64>) -> bool {
    &&& fitness.len() * ROULETTE_SCALE <= u64::MAX
    &&& sum_of(roulette_weights(fitness)) > 0
}

/// A weight never exceeds the scale.
pub proof fn lemma_weight_bounded(f: u64, max: u64)
    requires
        f <= max,
    ensures
        roulette_weight(f, max) <= ROULETTE_SCALE,
        f != u64::MAX && max != 0 ==> roulette_weight(f, max) == f * ROULETTE_SCALE / (max as int),
{
    if f != u64::MAX && max != 0 {
        let scale = ROULETTE_SCALE as int;
        let num = f * scale;
        let den = max as int;
        assert(num <= scale * den) by (nonlinear_arith)
            requires
                num == f * scale,
                f <= den,
                scale >= 0,
        ;
        assert(num / den <= scale) by (nonlinear_arith)
            requires
                num <= scale * den,
                den > 0,
        ;
        assert(0 <= num / den) by (nonlinear_arith)
            requires
                num >= 0,
                den > 0,
        ;
    }
}

/// A sum of weights is at most their number times a bound on each.
pub proof fn lemma_sum_bounded(weights: Seq<u64>, bound: nat)
    requires
        forall|i: int| 0 <= i < weights.len() ==> weights[i] <= bound,
    ensures
        sum_of(weights) <= weights.len() * bound,
    decreases weights.len(),
{
    if weights.len() > 0 {
        let front = weights.drop_last();
        assert forall|i: int| 0 <= i < front.len() implies front[i] <= bound by {
            assert(front[i] == weights[i]);
        }
        lemma_sum_bounded(front, bound);
        assert(front.len() * bound + bound == weights.len() * bound) by (nonlinear_arith)
            requires
                front.len() + 1 == weights.len(),
        ;
    } else {
        assert(weights.len() * bound == 0) by (nonlinear_arith)
            requires
                weights.len() == 0,
        ;
    }
}

/// The sampling weights of a population, position by position.
pub fn roulette_weights_of(fitness: &Vec<u64>) -> (weights: Vec<u64>)
    ensures
        weights@ == roulette_weights(fitness@),
{
    let max = max_value(fitness);
    proof {
        lemma_max_of(fitness@);
    }
    let mut weights: Vec<u64> = Vec::new();
    let mut i: usize = 0;
    while i < fitness.len()
        invariant
            i <= fitness.len(),
            max == max_of(fitness@),
            forall|k: int| 0 <= k < fitness.len() ==> fitness[k] <= max,
            weights.len() == i,
            forall|k: int| 0 <= k < i ==> weights[k] == roulette_weight(fitness[k], max),
        decreases fitness.len() - i,
    {
        let f = fitness[i];
        let w: u64 = if f == u64::MAX || max == 0 {
            0
        } else {
            proof {
                lemma_weight_bounded(f, max);
                assert(f * ROULETTE_SCALE <= u64::MAX * ROULETTE_SCALE) by (nonlinear_arith)
                    requires
                        f <= u64::MAX,
                ;
            }
            let scaled: u128 = f as u128 * ROULETTE_SCALE as u128;
            (scaled / max as u128) as u64
        };
        weights.push(w);
        i += 1;
    }
    assert(weights@ =~= roulette_weights(fitness@));
    weights
}

/// Sets up fitness-proportionate sampling over a population: a sampler
/// with the weights `roulette_weights`, where `roulette_available`.
pub fn gene_pool(fitness: &Vec<u64>) -> (pool: Option<GenePool>)
    ensures
        pool is Some <==> roulette_available(fitness@),
        pool is Some ==> pool_weights(pool->0) == roulette_weights(fitness@),
{
    if fitness.len() as u64 > u64::MAX / ROULETTE_SCALE {
        assert(fitness.len() * ROULETTE_SCALE > u64::MAX) by (nonlinear_arith)
            requires
                fitness.len() > u64::MAX / ROULETTE_SCALE,
                ROULETTE_SCALE == 1_000_000,
        ;
        return None;
    }
    let weights = roulette_weights_of(fitness);
    proof {
        lemma_max_of(fitness@);
        assert forall|i: int| 0 <= i < weights.len() implies weights[i] <= ROULETTE_SCALE by {
            lemma_weight_bounded(fitness[i], max_of(fitness@));
        }
        lemma_sum_bounded(weights@, ROULETTE_SCALE as nat);
        assert(fitness.len() * ROULETTE_SCALE <= u64::MAX) by (nonlinear_arith)
            requires
                fitness.len() <= u64::MAX / ROULETTE_SCALE,
                ROULETTE_SCALE == 1_000_000,
        ;
        if weights.len() == 0 {
            assert(sum_of(weights@) == 0);
        }
    }
    weighted_pool(&weights)
}

/// Draws one position from a sampler.
pub fn roulette_selection(pool: &GenePool) -> (parent: usize)
    ensures
        parent < pool_weights(*pool).len(),
        pool_weights(*pool)[parent as int] > 0,
{
    sample_pool(pool)
}

/// The winner of a tournament among the positions `draws`: the fittest of
/// them, and among equally fit ones the one drawn first.
pub open spec fn tournament_best(fitness: Seq<u64>, draws: Seq<usize>) -> usize
    decreases draws.len(),
{
    if draws.len() <= 1 {
        draws[0]
    } else {
        let best = tournament_best(fitness, draws.drop_last());
        if fitness[draws.last() as int] > fitness[best as int] {
            draws.last()
        } else {
            best
        }
    }
}

/// The winner of a tournament is one of the draws, and none of them is
/// fitter.
pub proof fn lemma_tournament_best(fitness: Seq<u64>, draws: Seq<usize>)
    requires
        draws.len() >= 1,
    ensures
        exists|p: int| 0 <= p < draws.len() && draws[p] == tournament_best(fitness, draws),
        forall|p: int|
            0 <= p < draws.len() ==> fitness[draws[p] as int] <= fitness[tournament_best(
                fitness,
                draws,
            ) as int],
    decreases draws.len(),
{
    if draws.len() <= 1 {
        assert(draws[0] == tournament_best(fitness, draws));
    } else {
        let front = draws.drop_last();
        lemma_tournament_best(fitness, front);
        let best = tournament_best(fitness, front);
        let p = choose|p: int| 0 <= p < front.len() && front[p] == best;
        if fitness[draws.last() as int] > fitness[best as int] {
            assert(draws[draws.len() - 1] == tournament_best(fitness, draws));
        } else {
            assert(draws[p] == tournament_best(fitness, draws));
        }
        assert forall|q: int| 0 <= q < draws.len() implies fitness[draws[q] as int]
            <= fitness[tournament_best(fitness, draws) as int] by {
            if q < front.len() {
                assert(front[q] == draws[q]);
            }
        }
    }
}

/// Decides a tournament among the positions `draws`.
pub fn tournament_winner(fitness: &Vec<u64>, draws: &Vec<usize>) -> (winner: usize)
    requires
        draws.len() >= 1,
        forall|p: int| 0 <= p < draws.len() ==> draws[p] < fitness.len(),
    ensures
        winner == tournament_best(fitness@, draws@),
        winner < fitness.len(),
{
    let mut best: usize = draws[0];
    assert(draws@.take(1).len() == 1);
    let mut p: usize = 1;
    while p < draws.len()
        invariant
            1 <= p <= draws.len(),
            forall|q: int| 0 <= q < draws.len() ==> draws[q] < fitness.len(),
            best < fitness.len(),
            best == tournament_best(fitness@, draws@.take(p as int)),
        decreases draws.len() - p,
    {
        assert(draws@.take(p + 1).drop_last() =~= draws@.take(p as int));
        let challenger = draws[p];
        if fitness[challenger] > fitness[best] {
            best = challenger;
        }
        p += 1;
    }
    assert(draws@.take(draws.len() as int) =~= draws@);
    best
}

/// `winner` can win a tournament of one draw and `size` more: it is the
/// winner among some such draws of positions of `fitness`.
pub open spec fn wins_tournament(fitness: Seq<u64>, size: nat, winner: usize) -> bool {
    exists|draws: Seq<usize>|
        {
            &&& draws.len() == size + 1
            &&& forall|p: int| 0 <= p < draws.len() ==> draws[p] < fitness.len()
            &&& winner == #[trigger] tournament_best(fitness, draws)
        }
}

/// Holds a tournament: draws one position at random, then
/// `tournament_size` more, and returns the winner among them.
pub fn tournament_selection(fitness: &Vec<u64>, tournament_size: usize) -> (winner: usize)
    requires
        fitness.len() >= 1,
    ensures
        winner < fitness.len(),
        wins_tournament(fitness@, tournament_size as nat, winner),
{
    let mut draws: Vec<usize> = Vec::new();
    draws.push(random_index(fitness.len()));
    let mut round: usize = 0;
    while round < tournament_size
        invariant
            round <= tournament_size,
            fitness.len() >= 1,
            draws.len() == round + 1,
            forall|p: int| 0 <= p < draws.len() ==> draws[p] < fitness.len(),
        decreases tournament_size - round,
    {
        draws.push(random_index(fitness.len()));
        round += 1;
    }
    let winner = tournament_winner(fitness, &draws);
    assert(winner == tournament_best(fitness@, draws@));
    winner
}

} // verus!
