//! Random choices, and what is taken on trust about them.
//!
//! The generator is `rand`'s thread-local one. Nothing is claimed about
//! which values it yields, only about where they lie.

use vstd::prelude::*;
use rand::rngs::ThreadRng;
use rand::seq::SliceRandom;
use rand::Rng;
use crate::coord::Coord;

verus! {

/// `rand`'s handle to the thread-local generator. The verifier sees nothing
/// inside it.
#[verifier::external_type_specification]
#[verifier::external_body]
pub struct ExThreadRng(ThreadRng);

/// Calls `rand::rng` for a handle to the thread-local generator. Nothing
/// is claimed of it.
#[verifier::external_body]
pub(crate) fn thread_rng() -> ThreadRng {
    rand::rng()
}

/// Calls `Rng::random_range` on a half-open range, which must not be empty
/// because the call panics on an empty range. Claims that the number drawn
/// lies in the range.
#[verifier::external_body]
pub(crate) fn draw_between(rng: &mut ThreadRng, low: usize, high: usize) -> (drawn: usize)
    requires
        low < high,
    ensures
        low <= drawn < high,
{
    rng.random_range(low..high)
}

/// Calls `SliceRandom::shuffle`. Claims that the cells are rearranged: each
/// occurs afterwards as often as before.
#[verifier::external_body]
pub(crate) fn shuffle_cells(cells: &mut Vec<Coord>, rng: &mut ThreadRng)
    ensures
        final(cells)@.to_multiset() == old(cells)@.to_multiset(),
{
    cells.shuffle(rng)
}

} // verus!
