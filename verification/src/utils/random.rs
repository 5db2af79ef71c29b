//! The source of randomness.

use vstd::prelude::*;
use rand::rngs::StdRng;
use rand::seq::SliceRandom;
use rand::{Rng, SeedableRng};
use crate::algorithms::math::{Ratio, RATIO_ONE};

verus! {

#[verifier::external_type_specification]
#[verifier::external_body]
pub struct ExStdRng(rand::rngs::StdRng);

/// Calls `SeedableRng::seed_from_u64` of the rand crate for its standard
/// generator. Nothing is claimed of the generator that comes back.
#[verifier::external_body]
fn seeded_generator(seed: u64) -> StdRng {
    StdRng::seed_from_u64(seed)
}

/// Calls `Rng::gen_range` of the rand crate with the inclusive range from
/// `min` to `max`. The crate documents a value in the given range, and a
/// panic on an empty range, which `requires` leaves out.
#[verifier::external_body]
fn generate_int(rng: &mut StdRng, min: i32, max: i32) -> (r: i32)
    requires
        min <= max,
    ensures
        min <= r <= max,
{
    rng.gen_range(min..=max)
}

/// Calls `SliceRandom::shuffle` of the rand crate, which only swaps items of
/// the slice: the items are the same afterwards, in some order.
#[verifier::external_body]
fn shuffle_all<T>(rng: &mut StdRng, items: &mut Vec<T>)
    ensures
        final(items)@.to_multiset() == old(items)@.to_multiset(),
{
    items.shuffle(rng);
}

/// Calls `SliceRandom::partial_shuffle` of the rand crate, which only swaps
/// items of the slice, one swap for each of the last `amount` positions: the
/// items are the same afterwards, in some order, and in their own order
/// where the amount is zero.
#[verifier::external_body]
fn shuffle_part<T>(rng: &mut StdRng, items: &mut Vec<T>, amount: usize)
    ensures
        final(items)@.to_multiset() == old(items)@.to_multiset(),
        amount == 0 ==> final(items)@ == old(items)@,
{
    items.partial_shuffle(rng, amount);
}

/// A source of random numbers that holds its own generator.
pub struct DefaultRandom {
    rng: StdRng,
}

impl DefaultRandom {
    /// A source that gives the same numbers for the same seed.
    pub fn new_repeatable(seed: u64) -> Self {
        DefaultRandom { rng: seeded_generator(seed) }
    }

    /// A whole number between `min` and `max`, both included.
    pub fn uniform_int(&mut self, min: i32, max: i32) -> (r: i32)
        requires
            min <= max,
        ensures
            min <= r <= max,
    {
        if min == max {
            return min;
        }
        generate_int(&mut self.rng, min, max)
    }

    /// Flips a coin.
    pub fn is_head_not_tails(&mut self) -> bool {
        self.uniform_int(1, 2) == 1
    }

    /// Tests whether an event of the given probability happens: never for
    /// probability zero, always for probability one and above.
    pub fn is_hit(&mut self, probability: Ratio) -> (r: bool)
        ensures
            probability == 0 ==> !r,
            probability >= RATIO_ONE ==> r,
    {
        let drawn: i32 = self.uniform_int(0, 999_999);
        (drawn as u64) < probability
    }

    /// Puts the items into a random order.
    pub fn shuffle<T>(&mut self, items: &mut Vec<T>)
        ensures
            final(items)@.to_multiset() == old(items)@.to_multiset(),
    {
        shuffle_all(&mut self.rng, items);
    }

    /// Picks `amount` of the items at random and puts them, in a random
    /// order, at the end; the rest stays in front, not fully shuffled.
    pub fn partial_shuffle<T>(&mut self, items: &mut Vec<T>, amount: usize)
        ensures
            final(items)@.to_multiset() == old(items)@.to_multiset(),
            amount == 0 ==> final(items)@ == old(items)@,
    {
        shuffle_part(&mut self.rng, items, amount);
    }
}

} // verus!
