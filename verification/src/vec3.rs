//! Triples of reals: points, directions and colours.

use crate::scalar::{value_abs, value_lt, value_neg, Scalar};
use vstd::prelude::*;

verus! {

/// The pattern of `1e-8`, below which a component counts as zero.
pub const NEAR_ZERO_BITS: u64 = 0x3E45_798E_E230_8C3A;

/// A point, a direction or an RGB colour.
#[derive(Clone, Copy, Debug)]
pub struct Vector {
    pub x: Scalar,
    pub y: Scalar,
    pub z: Scalar,
}

impl Vector {
    /// The triple `(a, b, c)`.
    pub fn new(a: Scalar, b: Scalar, c: Scalar) -> (r: Self)
        ensures
            r == (Vector { x: a, y: b, z: c }),
    {
        Self { x: a, y: b, z: c }
    }

    /// The component along axis `n`: `y` for 1, `z` for 2, `x` for any
    /// other index.
    pub fn at(&self, n: u32) -> (r: Scalar)
        ensures
            r == self.component(n),
    {
        if n == 1 {
            self.y
        } else if n == 2 {
            self.z
        } else {
            self.x
        }
    }

    /// The opposite triple: what scaling by minus one gives.
    pub fn neg(&self) -> (r: Vector)
        ensures
            r == self.opposite(),
            r.x@ == value_neg(self.x@),
            r.y@ == value_neg(self.y@),
            r.z@ == value_neg(self.z@),
    {
        Vector { x: self.x.neg(), y: self.y.neg(), z: self.z.neg() }
    }

    /// Whether every component is closer to zero than `1e-8`.
    pub fn near_zero(&self) -> (r: bool)
        ensures
            r == (tiny(self.x) && tiny(self.y) && tiny(self.z)),
    {
        let s = Scalar::from_bits(NEAR_ZERO_BITS);
        self.x.abs().lt(s) && self.y.abs().lt(s) && self.z.abs().lt(s)
    }

    /// What [`Vector::at`] returns.
    pub open spec fn component(&self, n: u32) -> Scalar {
        if n == 1 {
            self.y
        } else if n == 2 {
            self.z
        } else {
            self.x
        }
    }

    /// What [`Vector::neg`] returns.
    pub open spec fn opposite(&self) -> Vector {
        Vector {
            x: flipped(self.x),
            y: flipped(self.y),
            z: flipped(self.z),
        }
    }
}

/// The pattern of `s` with its sign bit turned round.
pub open spec fn flipped(s: Scalar) -> Scalar {
    Scalar {
        bits: if s.bits >= crate::scalar::SIGN_BIT {
            (s.bits - crate::scalar::SIGN_BIT) as u64
        } else {
            (s.bits + crate::scalar::SIGN_BIT) as u64
        },
    }
}

/// Whether `|s| < 1e-8`.
pub open spec fn tiny(s: Scalar) -> bool {
    value_lt(value_abs(s@), (Scalar { bits: NEAR_ZERO_BITS })@)
}

/// The opposite triple has each component with its sign turned round.
pub proof fn lemma_opposite_negates(v: Vector)
    ensures
        v.opposite().x@ == value_neg(v.x@),
        v.opposite().y@ == value_neg(v.y@),
        v.opposite().z@ == value_neg(v.z@),
{
    lemma_flipped_negates(v.x);
    lemma_flipped_negates(v.y);
    lemma_flipped_negates(v.z);
}

/// Turning the sign bit round turns the sign of the value round.
pub proof fn lemma_flipped_negates(s: Scalar)
    ensures
        flipped(s)@ == value_neg(s@),
{
}

} // verus!
