//! Trusted wrappers around the process-local random generator.
//!
//! Randomness is inherently outside what can be proved, so each wrapper
//! states only what holds of every possible outcome; the verified callers
//! take the drawn values as arguments and do the rest.

use vstd::prelude::*;

verus! {

/// Relies on rand's `Rng::random_range` over an inclusive range: it returns
/// a value of the range and panics only on an empty range, which the
/// precondition rules out.
#[verifier::external_body]
pub(crate) fn rand_u16_inclusive(lo: u16, hi: u16) -> (r: u16)
    requires
        lo <= hi,
    ensures
        lo <= r <= hi,
{
    rand::Rng::random_range(&mut rand::rng(), lo..=hi)
}

/// Relies on rand's `random`: an unbiased coin flip; nothing can be
/// promised of the outcome.
#[verifier::external_body]
pub(crate) fn rand_bool() -> bool {
    rand::random::<bool>()
}

/// Relies on rand's `Rng::random_range` over an inclusive index range:
/// it returns a value of the range and panics only on an empty range,
/// which the precondition rules out.
#[verifier::external_body]
pub(crate) fn rand_usize_inclusive(lo: usize, hi: usize) -> (r: usize)
    requires
        lo <= hi,
    ensures
        lo <= r <= hi,
{
    rand::Rng::random_range(&mut rand::rng(), lo..=hi)
}

/// Relies on rand's `SliceRandom::shuffle`: it permutes the slice in
/// place, so the elements as a multiset stay the same.
#[verifier::external_body]
pub(crate) fn shuffle_pairs(v: &mut Vec<(u16, u16)>)
    ensures
        final(v)@.len() == old(v)@.len(),
        final(v)@.to_multiset() == old(v)@.to_multiset(),
{
    rand::seq::SliceRandom::shuffle(v.as_mut_slice(), &mut rand::rng());
}

/// Relies on rand's `IteratorRandom::choose_multiple`: it samples
/// `min(amount, v.len())` distinct elements of `v` without replacement,
/// in an unspecified order, so the result is a sub-multiset of `v`.
#[verifier::external_body]
pub(crate) fn choose_pairs(v: &Vec<(u16, u16)>, amount: usize) -> (r: Vec<(u16, u16)>)
    ensures
        r@.len() == vstd::math::min(amount as int, v@.len() as int),
        forall|i: int| 0 <= i < r@.len() ==> v@.contains(#[trigger] r@[i]),
        r@.to_multiset().subset_of(v@.to_multiset()),
{
    rand::seq::IteratorRandom::choose_multiple(v.iter().copied(), &mut rand::rng(), amount)
}

} // verus!
