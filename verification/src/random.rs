//! Randomness, taken from the `rand` crate.

use rand::seq::SliceRandom;
use rand::Rng;
use vstd::prelude::*;

use crate::piece::Piece;

verus! {

/// Calls `SliceRandom::shuffle` of `rand` on the pieces, with the generator
/// of the running thread. Trusted: the call swaps pieces among the places of
/// the slice, so the same pieces are there afterwards, each as often as
/// before; nothing is claimed of their order.
#[verifier::external_body]
pub(crate) fn shuffle_pieces(pieces: &mut Vec<Piece>)
    ensures
        final(pieces)@.to_multiset() == old(pieces)@.to_multiset(),
{
    pieces.shuffle(&mut rand::thread_rng());
}

/// Calls `Rng::gen_range` of `rand` on the generator of the running thread.
/// Trusted: the call returns a number from `low` up to, and without, `high`;
/// which one is left open. `rand` panics where `low` is not below `high`.
#[verifier::external_body]
pub(crate) fn random_below(low: u8, high: u8) -> (r: u8)
    requires
        low < high,
    ensures
        low <= r < high,
{
    rand::thread_rng().gen_range(low, high)
}

} // verus!
