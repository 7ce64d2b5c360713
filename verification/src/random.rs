//! The one source of chance: the thread's random number generator.

use rand::Rng;
use vstd::prelude::*;

verus! {

/// Draws a number below `bound`.
///
/// Calls `Rng::gen_range` of the `rand` crate on the thread's generator
/// with the range `0..bound`. That function returns a value inside the
/// range it is given and panics on an empty range, which `bound > 0` rules
/// out. Nothing is claimed about which value comes back.
#[verifier::external_body]
pub(crate) fn random_below(bound: usize) -> (r: usize)
    requires
        bound > 0,
    ensures
        r < bound,
{
    rand::thread_rng().gen_range(0..bound)
}

} // verus!
