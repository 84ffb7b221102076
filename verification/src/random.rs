//! The random draws that the search makes, each taken from the thread-local
//! generator of the `rand` crate. Nothing is promised of a draw but the range it
//! lies in.

use rand::distr::weighted::WeightedIndex;
use rand::distr::Distribution;
use rand::Rng;
use vstd::prelude::*;

verus! {

/// The sum of the weights `w`.
pub open spec fn total_weight(w: Seq<u32>) -> int
    decreases w.len(),
{
    if w.len() == 0 {
        0
    } else {
        total_weight(w.drop_last()) + w.last()
    }
}

/// Calls `rand::Rng::random_range` on `rand::rng()` with the range `0..bound`.
/// The draw lies in that range; an empty range is left out, since the call
/// panics on it.
#[verifier::external_body]
pub(crate) fn random_below(bound: usize) -> (r: usize)
    requires
        bound > 0,
    ensures
        r < bound,
{
    rand::rng().random_range(0..bound)
}

/// Calls `rand::Rng::random_range` on `rand::rng()` with the range `low..high`
/// of signed integers. The draw lies in that range; an empty range is left out.
#[verifier::external_body]
pub(crate) fn random_i32_between(low: i32, high: i32) -> (r: i32)
    requires
        low < high,
    ensures
        low <= r < high,
{
    rand::rng().random_range(low..high)
}

/// Calls `rand::random` for a `bool`. Either value may come back.
#[verifier::external_body]
pub(crate) fn random_bool() -> bool {
    rand::random::<bool>()
}

/// Calls `rand::seq::index::sample` on `rand::rng()`: `amount` indices below
/// `length`, no two of them equal, in random order. The call panics where
/// `amount` exceeds `length`, so that is left out.
#[verifier::external_body]
pub(crate) fn sample_indices(length: usize, amount: usize) -> (picked: Vec<usize>)
    requires
        amount <= length,
    ensures
        picked.len() == amount,
        forall|i: int| 0 <= i < picked.len() ==> #[trigger] picked[i] < length,
        forall|i: int, j: int| 0 <= i < j < picked.len() ==> picked[i] != picked[j],
{
    rand::seq::index::sample(&mut rand::rng(), length, amount).into_vec()
}

/// Builds a `rand::distr::weighted::WeightedIndex` from `weights` and samples it
/// once with `rand::rng()`. The constructor fails on an empty list, on a total
/// of zero and on a total that overflows `u32`; otherwise an index comes back,
/// and never one whose weight is zero.
#[verifier::external_body]
pub(crate) fn weighted_choice(weights: &Vec<u32>) -> (r: Option<usize>)
    ensures
        r is None <==> weights.len() == 0 || total_weight(weights@) == 0 || total_weight(
            weights@,
        ) > u32::MAX,
        r matches Some(i) ==> i < weights.len() && weights[i as int] > 0,
{
    match WeightedIndex::new(weights) {
        Ok(dist) => Some(dist.sample(&mut rand::rng())),
        Err(_) => None,
    }
}

} // verus!
