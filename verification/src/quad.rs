//! Flat shapes: parallelograms.

use crate::aabb::AABB;
use crate::hittable::{faces_front, HitRecord};
use crate::interval::Interval;
use crate::material::unit_range;
use crate::scalar::{value_abs, value_lt, Scalar};
use crate::vec3::{Vector, NEAR_ZERO_BITS};
use vstd::prelude::*;

verus! {

/// The parallelogram with the corner `q` and the sides `u` and `v`.
///
/// `normal` is the unit normal of its plane, `d` the plane's offset along
/// the normal and `w` the normal divided by the square of its length, by
/// which a point of the plane is brought to coordinates along the sides.
/// `mat` is the handle of the material.
#[derive(Clone, Copy, Debug)]
pub struct Quad {
    pub q: Vector,
    pub u: Vector,
    pub v: Vector,
    pub w: Vector,
    pub normal: Vector,
    pub mat: usize,
    pub bbox: AABB,
    pub d: Scalar,
}

/// Whether a ray runs along the plane: the dot product of the plane's
/// normal with the ray's direction is closer to zero than `1e-8`.
pub open spec fn grazes(denom: Scalar) -> bool {
    value_lt(value_abs(denom@), (Scalar { bits: NEAR_ZERO_BITS })@)
}

/// The record of a hit on a flat shape at the plane coordinates `(a, b)`.
pub open spec fn flat_hit(
    a: Scalar,
    b: Scalar,
    t: Scalar,
    intersection: Vector,
    denom: Scalar,
    normal: Vector,
    mat: usize,
) -> HitRecord {
    HitRecord {
        p: intersection,
        normal: if faces_front(denom) {
            normal
        } else {
            normal.opposite()
        },
        mat: Some(mat),
        t,
        u: a,
        v: b,
        front_face: faces_front(denom),
    }
}

impl Quad {
    /// The parallelogram with the given parts, bounded by the join of the
    /// boxes of its two diagonals: `diagonal1` from `q` to `q + u + v` and
    /// `diagonal2` from `q + u` to `q + v`.
    pub fn new(
        q: Vector,
        u: Vector,
        v: Vector,
        w: Vector,
        normal: Vector,
        d: Scalar,
        mat: usize,
        diagonal1: &AABB,
        diagonal2: &AABB,
    ) -> (r: Self)
        ensures
            r == (Quad { q, u, v, w, normal, mat, bbox: AABB::union(*diagonal1, *diagonal2), d }),
    {
        let mut val = Self { q, u, v, w, normal, mat, bbox: AABB::default(), d };
        val.set_bounding_box(diagonal1, diagonal2);
        val
    }

    /// Sets the box to the join of the boxes of the two diagonals.
    pub fn set_bounding_box(&mut self, diagonal1: &AABB, diagonal2: &AABB)
        ensures
            *final(self) == (Quad { bbox: AABB::union(*diagonal1, *diagonal2), ..*old(self) }),
    {
        self.bbox = AABB::box_new(diagonal1, diagonal2);
    }

    /// The box that bounds the parallelogram.
    pub fn bounding_box(&self) -> (r: AABB)
        ensures
            r == self.bbox,
    {
        self.bbox
    }

    /// Whether a ray runs along the plane, so that it counts as missing it:
    /// `denom`, the dot product of the plane's normal with the ray's
    /// direction, is closer to zero than `1e-8`.
    pub fn is_parallel(denom: Scalar) -> (r: bool)
        ensures
            r == grazes(denom),
    {
        denom.abs().lt(Scalar::from_bits(NEAR_ZERO_BITS))
    }

    /// A record with the surface coordinates `(a, b)` where both lie within
    /// `[0, 1]`, which is where the point lies within the parallelogram;
    /// nothing otherwise.
    pub fn is_interior(a: Scalar, b: Scalar) -> (r: Option<HitRecord>)
        ensures
            r == if unit_range().holds(a) && unit_range().holds(b) {
                Some(HitRecord { u: a, v: b, ..HitRecord::blank() })
            } else {
                None
            },
    {
        let mut val: HitRecord = HitRecord::default();
        let unit_interval = Interval::new(Scalar::zero(), Scalar::one());
        if !unit_interval.contains(a) || !unit_interval.contains(b) {
            return None;
        }
        val.u = a;
        val.v = b;
        Some(val)
    }

    /// The hit of a ray on the parallelogram within `ray_t`.
    ///
    /// `denom` is the dot product of the normal with the ray's direction,
    /// `t` the parameter at which the ray meets the plane, `intersection`
    /// the point there and `(alpha, beta)` its coordinates along the sides.
    /// A ray that runs along the plane misses, as does one that meets the
    /// plane outside the window or outside the parallelogram.
    pub fn hit(
        &self,
        denom: Scalar,
        t: Scalar,
        intersection: Vector,
        alpha: Scalar,
        beta: Scalar,
        ray_t: &Interval,
    ) -> (r: Option<HitRecord>)
        ensures
            r == if grazes(denom) || !ray_t.holds(t) || !unit_range().holds(alpha)
                || !unit_range().holds(beta) {
                None
            } else {
                Some(flat_hit(alpha, beta, t, intersection, denom, self.normal, self.mat))
            },
    {
        if Self::is_parallel(denom) {
            return None;
        }
        if !ray_t.contains(t) {
            return None;
        }
        if let Some(mut val) = Self::is_interior(alpha, beta) {
            val.t = t;
            val.p = intersection;
            val.mat = Some(self.mat);
            val.set_face_normal(denom, &self.normal);
            Some(val)
        } else {
            None
        }
    }
}

} // verus!
