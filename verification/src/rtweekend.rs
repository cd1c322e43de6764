//! Chance.

use rand::Rng;
use vstd::prelude::*;

verus! {

/// A whole number drawn from `min..=max`.
///
/// Calls `rand::Rng::gen_range` on the thread's generator with the
/// inclusive range. The generator refuses an empty range, so `min` may not
/// exceed `max`; what comes back lies within the range, and nothing more is
/// known of it.
#[verifier::external_body]
pub fn random_int_range(min: u32, max: u32) -> (r: u32)
    requires
        min <= max,
    ensures
        min <= r <= max,
{
    let mut rng = rand::thread_rng();
    rng.gen_range(min..=max)
}

} // verus!
