//! The game's random source.
//!
//! One seeded generator is threaded through every operation that needs chance,
//! so that a fixed seed replays a whole run.

use rand::seq::SliceRandom;
use rand::Rng;
use vstd::prelude::*;

verus! {

#[verifier::external_type_specification]
#[verifier::external_body]
pub struct ExMcg128Xsl64(rand_pcg::Mcg128Xsl64);

/// The generator that the game draws from.
pub type GameRng = rand_pcg::Pcg64Mcg;

/// Calls `Rng::gen_range` of `rand` on the inclusive range `low..=high`.
/// `gen_range` panics on an empty range, so `low <= high` is asked. The claim:
/// the value drawn lies in the range.
#[verifier::external_body]
pub(crate) fn gen_range_inclusive(rng: &mut GameRng, low: i64, high: i64) -> (r: i64)
    requires
        low <= high,
    ensures
        low <= r <= high,
{
    rng.gen_range(low..=high)
}

/// Calls `Rng::gen_ratio` of `rand` with the ratio 1 in 2: a fair coin.
/// Nothing is claimed of the outcome.
#[verifier::external_body]
pub(crate) fn gen_coin(rng: &mut GameRng) -> (heads: bool) {
    rng.gen_ratio(1, 2)
}

/// Calls `SliceRandom::shuffle` of `rand`, which swaps elements in place.
/// The claim: the vector holds the same elements as before, each as often.
#[verifier::external_body]
pub(crate) fn shuffle<T>(rng: &mut GameRng, items: &mut Vec<T>)
    ensures
        final(items)@.to_multiset() == old(items)@.to_multiset(),
{
    items.shuffle(rng)
}

/// A number drawn between `a` and `b`, both included, in whichever order they
/// are given.
pub fn pcg_randint(rng: &mut GameRng, a: i64, b: i64) -> (r: i64)
    ensures
        a <= r <= b || b <= r <= a,
{
    if a <= b {
        gen_range_inclusive(rng, a, b)
    } else {
        gen_range_inclusive(rng, b, a)
    }
}

/// An index drawn below `n`.
pub fn random_index(rng: &mut GameRng, n: usize) -> (i: usize)
    requires
        0 < n,
    ensures
        i < n,
{
    let top: u64 = (n - 1) as u64;
    let high: i64 = if top > 0x7fff_ffff_ffff_ffff {
        0x7fff_ffff_ffff_ffff
    } else {
        top as i64
    };
    let r: i64 = gen_range_inclusive(rng, 0, high);
    r as usize
}

} // verus!
