//! The source of chance for mine placement.

use crate::index::FieldIndex;
use rand::rngs::ThreadRng;
use rand::seq::SliceRandom;
use rand::Rng;
use vstd::prelude::*;

verus! {

#[verifier::external_type_specification]
#[verifier::external_body]
pub struct ExThreadRng(ThreadRng);

/// `rand::thread_rng`: a handle to the generator of the current thread.
/// Nothing is claimed of it.
#[verifier::external_body]
pub(crate) fn thread_rng() -> ThreadRng {
    rand::thread_rng()
}

/// `rand::seq::SliceRandom::shuffle`: the positions are put in another
/// order by swaps, so each occurs as often afterwards as before. Which order
/// comes out is left open.
#[verifier::external_body]
pub(crate) fn shuffle(cells: &mut Vec<FieldIndex>, rng: &mut ThreadRng)
    ensures
        final(cells)@.to_multiset() == old(cells)@.to_multiset(),
{
    cells.shuffle(rng);
}

/// `rand::Rng::gen_ratio`: `true` with probability `numerator / denominator`.
/// The call panics on a zero denominator and on a numerator above the
/// denominator. Only the two certain cases are claimed of the result.
#[verifier::external_body]
pub(crate) fn gen_ratio(rng: &mut ThreadRng, numerator: u32, denominator: u32) -> (hit: bool)
    requires
        0 < denominator,
        numerator <= denominator,
    ensures
        numerator == 0 ==> !hit,
        numerator == denominator ==> hit,
{
    rng.gen_ratio(numerator, denominator)
}

} // verus!
