//! Densities over directions: what the library decides of them.

use crate::onb::Onb;
use crate::scalar::{greater, value_lt, Scalar};
use crate::vec3::Vector;
use vstd::prelude::*;

verus! {

/// The pattern of `1 / (4 * pi)`, the density of a direction drawn evenly
/// from the whole sphere.
pub const UNIFORM_SPHERE_BITS: u64 = 0x3FB4_5F30_6DC9_C883;

/// The pattern of `0.5`.
pub const HALF_BITS: u64 = 0x3FE0_0000_0000_0000;

/// The even density over the sphere.
#[derive(Clone, Copy, Debug)]
pub struct SpherePdf {}

/// The density that falls off with the cosine of the angle to the third
/// axis of `uvw`.
#[derive(Clone, Copy, Debug)]
pub struct CosinePdf {
    pub uvw: Onb,
}

/// The even mixture of two densities, named by their handles.
#[derive(Clone, Copy, Debug)]
pub struct MixturePdf {
    pub p: [usize; 2],
}

impl SpherePdf {
    /// The density of any direction: `1 / (4 * pi)`.
    pub fn value(&self, _direction: &Vector) -> (r: Scalar)
        ensures
            r.bits == UNIFORM_SPHERE_BITS,
    {
        Scalar::from_bits(UNIFORM_SPHERE_BITS)
    }
}

impl CosinePdf {
    /// The density about the frame `uvw`.
    pub fn new(uvw: Onb) -> (r: Self)
        ensures
            r.uvw == uvw,
    {
        CosinePdf { uvw }
    }

    /// The density of a direction, given `cosine_over_pi`, the cosine of its
    /// angle to the axis divided by pi: that number, or zero where the
    /// direction points away from the axis.
    pub fn value(&self, cosine_over_pi: Scalar) -> (r: Scalar)
        ensures
            r == greater(cosine_over_pi, Scalar { bits: 0 }),
    {
        cosine_over_pi.max(Scalar::zero())
    }
}

impl MixturePdf {
    /// The mixture of the densities with the handles `first` and `second`.
    pub fn new(first: usize, second: usize) -> (r: Self)
        ensures
            r.p@ == seq![first, second],
    {
        Self { p: [first, second] }
    }

    /// The handle of the density to draw the next direction from, for a
    /// number `draw` drawn evenly from `[0, 1)`: the first density where
    /// `draw < 0.5`, the second otherwise.
    pub fn generate(&self, draw: Scalar) -> (r: usize)
        ensures
            r == if value_lt(draw@, (Scalar { bits: HALF_BITS })@) {
                self.p@[0]
            } else {
                self.p@[1]
            },
    {
        if draw.lt(Scalar::from_bits(HALF_BITS)) {
            self.p[0]
        } else {
            self.p[1]
        }
    }
}

} // verus!
