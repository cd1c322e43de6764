//! Orthonormal frames about a direction.

use crate::scalar::{value_abs, value_lt, Scalar};
use crate::vec3::Vector;
use vstd::prelude::*;

verus! {

/// The pattern of `0.9`: a unit direction whose `x` exceeds it in size is
/// too close to the `x` axis to start a frame from that axis.
pub const STEEP_BITS: u64 = 0x3FEC_CCCC_CCCC_CCCD;

/// Three unit directions at right angles; the third is the one the frame
/// was built about.
#[derive(Clone, Copy, Debug)]
pub struct Onb {
    pub axis: [Vector; 3],
}

/// Whether `|x| > 0.9`.
pub open spec fn steep(x: Scalar) -> bool {
    value_lt((Scalar { bits: STEEP_BITS })@, value_abs(x@))
}

impl Onb {
    /// The frame with the axes `u`, `v` and `w`, in this order.
    pub fn new(u: Vector, v: Vector, w: Vector) -> (r: Self)
        ensures
            r.axis@ == seq![u, v, w],
    {
        Onb { axis: [u, v, w] }
    }

    /// The axis to start the frame from, for a unit direction `unit_w`: the
    /// `y` axis where the direction lies close to the `x` axis, the `x` axis
    /// otherwise. The frame's second axis is at right angles to both.
    pub fn helper_axis(unit_w: &Vector) -> (a: Vector)
        ensures
            a == if steep(unit_w.x) {
                Vector { x: Scalar { bits: 0 }, y: Scalar { bits: crate::scalar::ONE_BITS }, z: Scalar { bits: 0 } }
            } else {
                Vector { x: Scalar { bits: crate::scalar::ONE_BITS }, y: Scalar { bits: 0 }, z: Scalar { bits: 0 } }
            },
    {
        if unit_w.x.abs().gt(Scalar::from_bits(STEEP_BITS)) {
            Vector::new(Scalar::zero(), Scalar::one(), Scalar::zero())
        } else {
            Vector::new(Scalar::one(), Scalar::zero(), Scalar::zero())
        }
    }
}

} // verus!
