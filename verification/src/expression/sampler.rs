//! The calls into the random number library.
use super::weight::{integers, usable};
use rand::distributions::Distribution;
use rand::distributions::WeightedIndex;
use rand::rngs::StdRng;
use rand::Rng;
use rand::SeedableRng;
use vstd::prelude::*;

verus! {

/// `rand::rngs::StdRng`, the generator that every draw is made with. Nothing
/// of its state is known to the library: a draw is bound by what holds of
/// every outcome.
#[verifier::external_type_specification]
#[verifier::external_body]
pub struct ExStdRng(StdRng);

/// Calls `rand::SeedableRng::from_entropy` for a generator seeded by the
/// operating system. Nothing is claimed of the generator. The call stops the
/// program if the system has no entropy to give.
#[verifier::external_body]
pub(crate) fn entropy_generator() -> (r: StdRng) {
    StdRng::from_entropy()
}

/// Calls `rand::Rng::gen_range` on the generator with the inclusive range
/// `low..=high`. The call panics on an empty range, which the precondition
/// leaves out; what it returns lies in the range. Which value of the range
/// comes back is left to the generator.
#[verifier::external_body]
pub(crate) fn uniform_between(generator: &mut StdRng, low: i32, high: i32) -> (r: i32)
    requires
        low <= high,
    ensures
        low <= r <= high,
{
    generator.gen_range(low..=high)
}

/// Builds a `rand::distributions::WeightedIndex` over the weights, widened to
/// 128 bits so that their sum cannot overflow, and samples it once with the
/// generator. `WeightedIndex::new` fails when there is no weight, when one is
/// negative or when they sum to zero: then, and only then, nothing is
/// returned. Sampling returns an index into the weights, and never that of a
/// weight of zero. Which of the other indices comes back is left to the
/// generator.
#[verifier::external_body]
pub(crate) fn draw_index(generator: &mut StdRng, weights: &Vec<i32>) -> (r: Option<usize>)
    ensures
        r is Some <==> usable(integers(weights@)),
        r matches Some(index) ==> index < weights@.len() && weights@[index as int] > 0,
{
    let wide: Vec<i128> = weights.iter().map(|weight| i128::from(*weight)).collect();
    match WeightedIndex::new(wide) {
        Ok(distribution) => Some(distribution.sample(generator)),
        Err(_) => None,
    }
}

} // verus!
