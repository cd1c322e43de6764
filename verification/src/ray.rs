//! Rays: a start, a direction and the moment of the shutter.

use crate::scalar::Scalar;
use crate::vec3::Vector;
use vstd::prelude::*;

verus! {

/// The points `origin + t * direction`, seen at `time` within the shutter
/// interval.
#[derive(Clone, Copy, Debug)]
pub struct Ray {
    pub origin: Vector,
    pub direction: Vector,
    pub time: Scalar,
}

impl Ray {
    /// The ray from `a` along `b` at time `c`.
    pub fn new(a: Vector, b: Vector, c: Scalar) -> (r: Self)
        ensures
            r == (Ray { origin: a, direction: b, time: c }),
    {
        Self { origin: a, direction: b, time: c }
    }
}

} // verus!
