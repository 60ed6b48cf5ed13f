//! The one place where chance comes in.

use rand::Rng;
use vstd::prelude::*;

verus! {

/// One throw of a die with `sides` faces. The body calls `gen_range` of the
/// `rand` crate on the generator of the current thread, with the range from 1
/// to `sides`, both ends included. It is taken on trust that the number
/// returned lies in that range. Which number it is, is left open: two throws
/// of the same die need not agree.
#[verifier::external_body]
pub(crate) fn random_face(sides: u64) -> (face: u64)
    requires
        sides >= 1,
    ensures
        1 <= face <= sides,
{
    rand::thread_rng().gen_range(1..=sides)
}

} // verus!
