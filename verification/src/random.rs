//! The pseudo-random generator the engine draws from.

use crate::card::Card;
use rand::Rng;
use rand::SeedableRng;
use rand::StdRng;
use vstd::prelude::*;

verus! {

/// `rand::StdRng`, a seedable pseudo-random generator.
#[verifier::external_type_specification]
#[verifier::external_body]
pub struct ExStdRng(StdRng);

/// `rand::StdRng::from_seed` on the one-word seed `[seed]`. Nothing is
/// claimed of the generator that comes back.
#[verifier::external_body]
pub(crate) fn rng_from_seed(seed: usize) -> (rng: StdRng) {
    StdRng::from_seed(&[seed])
}

/// `rand::Rng::gen_range(0, bound)`, which is documented to return a
/// value of the half-open range from its first argument to its second
/// and to panic where that range is empty; hence `bound > 0` is
/// demanded and `index < bound` is claimed.
#[verifier::external_body]
pub(crate) fn index_below(rng: &mut StdRng, bound: usize) -> (index: usize)
    requires
        bound > 0,
    ensures
        index < bound,
{
    rng.gen_range(0, bound)
}

/// `rand::Rng::shuffle`, which permutes a slice in place by swapping
/// its elements: the cards afterwards are the cards before, in some
/// order.
#[verifier::external_body]
pub(crate) fn shuffle_cards(rng: &mut StdRng, cards: &mut Vec<Card>)
    ensures
        final(cards)@.to_multiset() == old(cards)@.to_multiset(),
{
    rng.shuffle(cards)
}

} // verus!
