//! The random draws that the colony and the genetic search make.
//!
//! All of them come from a generator that the caller owns. Nothing is known
//! of a draw beyond the set it is taken from, and the contracts say no more.

use rand::rngs::SmallRng;
use rand::seq::IndexedRandom;
use rand::seq::IteratorRandom;
use rand::Rng;
use vstd::prelude::*;

verus! {

#[verifier::external_type_specification]
#[verifier::external_body]
pub struct ExSmallRng(SmallRng);

/// No value occurs twice in `s`.
pub open spec fn distinct(s: Seq<usize>) -> bool {
    forall|i: int, j: int| 0 <= i < j < s.len() ==> s[i] != s[j]
}

/// `rand::Rng::random_range` on an inclusive range of `i128`: the draw lies
/// within the bounds. The range must not be empty.
#[verifier::external_body]
pub(crate) fn random_between(rng: &mut SmallRng, low: i128, high: i128) -> (r: i128)
    requires
        low <= high,
    ensures
        low <= r <= high,
{
    rng.random_range(low..=high)
}

/// `rand::Rng::random_ratio`: a coin that shows `true` with probability
/// `numerator / denominator`; it always does when the two are equal and never
/// when `numerator` is 0.
#[verifier::external_body]
pub(crate) fn random_ratio(rng: &mut SmallRng, numerator: u32, denominator: u32) -> (r: bool)
    requires
        0 < denominator,
        numerator <= denominator,
    ensures
        numerator == denominator ==> r,
        numerator == 0 ==> !r,
{
    rng.random_ratio(numerator, denominator)
}

/// The sum of the weights of the pairs.
pub open spec fn total_weight(weighted: Seq<(usize, u128)>) -> int
    decreases weighted.len(),
{
    if weighted.len() == 0 {
        0
    } else {
        total_weight(weighted.drop_last()) + weighted.last().1
    }
}

/// `rand::seq::IndexedRandom::choose_weighted` over pairs of an item and its
/// weight: an item is drawn exactly where the sum of the weights is above 0
/// and fits a `u128`, and it is the item of a pair with a weight above 0.
#[verifier::external_body]
pub(crate) fn weighted_choice(rng: &mut SmallRng, weighted: &Vec<(usize, u128)>) -> (r: Option<
    usize,
>)
    ensures
        r is Some <==> 0 < total_weight(weighted@) <= u128::MAX,
        r matches Some(item) ==> exists|i: int|
            0 <= i < weighted@.len() && #[trigger] weighted@[i].0 == item && weighted@[i].1 > 0,
{
    match weighted.choose_weighted(rng, |pair| pair.1) {
        Ok(pair) => Some(pair.0),
        Err(_) => None,
    }
}

/// `rand::seq::IteratorRandom::choose_multiple` over `0..n`: `amount`
/// different positions below `n`, in no particular order.
#[verifier::external_body]
pub(crate) fn distinct_indices(rng: &mut SmallRng, n: usize, amount: usize) -> (r: Vec<usize>)
    requires
        amount <= n,
    ensures
        r@.len() == amount,
        forall|i: int| 0 <= i < r@.len() ==> r@[i] < n,
        distinct(r@),
{
    (0..n).choose_multiple(rng, amount)
}

} // verus!
