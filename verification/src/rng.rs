//! The random draws the library makes, each behind a contract that holds of
//! every outcome.

use rand::distributions::{Distribution, WeightedIndex};
use rand::Rng;
use vstd::prelude::*;

verus! {

/// A `rand::distributions::WeightedIndex` over `u64` weights: a sampler of
/// positions, each drawn with a chance proportional to its weight. Nothing
/// inside it is visible to the proofs.
#[verifier::external_body]
pub struct GenePool {
    index: WeightedIndex<u64>,
}

/// The weights that a sampler was built from, in order.
pub uninterp spec fn pool_weights(pool: GenePool) -> Seq<u64>;

/// The sum of a sequence of weights.
pub open spec fn sum_of(weights: Seq<u64>) -> nat
    decreases weights.len(),
{
    if weights.len() == 0 {
        0
    } else {
        sum_of(weights.drop_last()) + weights.last() as nat
    }
}

/// Calls `WeightedIndex::new` on the weights and drops the reason of a
/// failure. Not proved: that a sampler comes back exactly when there is at
/// least one weight and the weights do not all vanish (the constructor
/// fails on no item and on a total of zero; a `u64` is never negative),
/// and that it then holds these weights. The constructor adds the weights
/// up in a `u64`; sums that would not fit are excluded.
#[verifier::external_body]
pub(crate) fn weighted_pool(weights: &Vec<u64>) -> (pool: Option<GenePool>)
    requires
        sum_of(weights@) <= u64::MAX,
    ensures
        pool is Some <==> (weights.len() > 0 && sum_of(weights@) > 0),
        pool is Some ==> pool_weights(pool->0) == weights@,
{
    match WeightedIndex::new(weights) {
        Ok(index) => Some(GenePool { index }),
        Err(_) => None,
    }
}

/// Calls `WeightedIndex::sample` with the thread-local generator. Not
/// proved: that the position drawn is one of the sampler's positions and
/// that its weight is not zero. The sampler draws a number below the total
/// weight and returns the first position whose running total exceeds it;
/// a position of weight zero has the running total of the one before it,
/// so it is never the first.
#[verifier::external_body]
pub(crate) fn sample_pool(pool: &GenePool) -> (r: usize)
    ensures
        r < pool_weights(*pool).len(),
        pool_weights(*pool)[r as int] > 0,
{
    pool.index.sample(&mut rand::thread_rng())
}

/// Calls `rand::Rng::gen_range` on the thread-local generator with the
/// half-open range `low..high`. Not proved: that the value drawn lies in
/// that range. The empty range, on which `gen_range` panics, is excluded.
#[verifier::external_body]
pub(crate) fn random_range(low: i32, high: i32) -> (r: i32)
    requires
        low < high,
    ensures
        low <= r < high,
{
    rand::thread_rng().gen_range(low..high)
}

/// Calls `rand::Rng::gen_range` on the thread-local generator with the
/// range `0..len`. Not proved: that the value drawn is below `len`. The
/// empty range, on which `gen_range` panics, is excluded.
#[verifier::external_body]
pub(crate) fn random_index(len: usize) -> (r: usize)
    requires
        0 < len,
    ensures
        r < len,
{
    rand::thread_rng().gen_range(0..len)
}

/// Calls `rand::Rng::gen` for a `bool` on the thread-local generator.
/// Nothing is claimed of the outcome.
#[verifier::external_body]
pub(crate) fn random_bool() -> bool {
    rand::thread_rng().gen::<bool>()
}

} // verus!
