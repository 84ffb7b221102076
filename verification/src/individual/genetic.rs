//! What the search asks of a candidate solution.

use vstd::prelude::*;

verus! {

/// A candidate solution that the search can score, make, combine and change.
pub trait Genetic: Sized {
    /// The score of the candidate; a higher one is better.
    fn fitness(&self) -> i64;

    /// A fresh candidate.
    fn generate() -> Self;

    /// A child of this candidate and `other`.
    fn crossover(&self, other: &Self) -> Self;

    /// Changes the candidate at random.
    fn mutate(&mut self);
}

} // verus!
