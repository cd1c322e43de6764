//! Flat shapes: triangles.

use crate::aabb::AABB;
use crate::hittable::HitRecord;
use crate::interval::Interval;
use crate::material::unit_range;
use crate::quad::{flat_hit, grazes, Quad};
use crate::scalar::Scalar;
use crate::vec3::Vector;
use vstd::prelude::*;

verus! {

/// The triangle with the corner `q` and the sides `u` and `v` that leave
/// it. `normal`, `d` and `w` are as for a parallelogram, `area` is the
/// triangle's area and `mat` the handle of the material.
#[derive(Clone, Copy, Debug)]
pub struct Triangle {
    pub q: Vector,
    pub u: Vector,
    pub v: Vector,
    pub w: Vector,
    pub normal: Vector,
    pub mat: usize,
    pub bbox: AABB,
    pub d: Scalar,
    pub area: Scalar,
}

impl Triangle {
    /// The triangle with the given parts, bounded by the join of the boxes
    /// of its two sides: `side1` from `q` to `q + u` and `side2` from `q` to
    /// `q + v`.
    pub fn new(
        q: Vector,
        u: Vector,
        v: Vector,
        w: Vector,
        normal: Vector,
        d: Scalar,
        area: Scalar,
        mat: usize,
        side1: &AABB,
        side2: &AABB,
    ) -> (r: Self)
        ensures
            r == (Triangle {
                q,
                u,
                v,
                w,
                normal,
                mat,
                bbox: AABB::union(*side1, *side2),
                d,
                area,
            }),
    {
        let mut val = Self { q, u, v, w, normal, mat, bbox: AABB::default(), d, area };
        val.set_bounding_box(side1, side2);
        val
    }

    /// Sets the box to the join of the boxes of the two sides.
    pub fn set_bounding_box(&mut self, side1: &AABB, side2: &AABB)
        ensures
            *final(self) == (Triangle { bbox: AABB::union(*side1, *side2), ..*old(self) }),
    {
        self.bbox = AABB::box_new(side1, side2);
    }

    /// The box that bounds the triangle.
    pub fn bounding_box(&self) -> (r: AABB)
        ensures
            r == self.bbox,
    {
        self.bbox
    }

    /// A record with the surface coordinates `(a, b)` where `a`, `b` and
    /// their sum `a_plus_b` all lie within `[0, 1]`, which is where the
    /// point lies within the triangle; nothing otherwise.
    pub fn is_interior(a: Scalar, b: Scalar, a_plus_b: Scalar) -> (r: Option<HitRecord>)
        ensures
            r == if unit_range().holds(a) && unit_range().holds(b) && unit_range().holds(a_plus_b) {
                Some(HitRecord { u: a, v: b, ..HitRecord::blank() })
            } else {
                None
            },
    {
        let mut val: HitRecord = HitRecord::default();
        let unit_interval = Interval::new(Scalar::zero(), Scalar::one());
        if !unit_interval.contains(a) || !unit_interval.contains(b) || !unit_interval.contains(
            a_plus_b,
        ) {
            return None;
        }
        val.u = a;
        val.v = b;
        Some(val)
    }

    /// The hit of a ray on the triangle within `ray_t`.
    ///
    /// `denom` is the dot product of the normal with the ray's direction,
    /// `t` the parameter at which the ray meets the plane, `intersection`
    /// the point there, `(alpha, beta)` its coordinates along the sides and
    /// `alpha_plus_beta` their sum. A ray that runs along the plane misses,
    /// as does one that meets the plane outside the window or outside the
    /// triangle.
    pub fn hit(
        &self,
        denom: Scalar,
        t: Scalar,
        intersection: Vector,
        alpha: Scalar,
        beta: Scalar,
        alpha_plus_beta: Scalar,
        ray_t: &Interval,
    ) -> (r: Option<HitRecord>)
        ensures
            r == if grazes(denom) || !ray_t.holds(t) || !unit_range().holds(alpha)
                || !unit_range().holds(beta) || !unit_range().holds(alpha_plus_beta) {
                None
            } else {
                Some(flat_hit(alpha, beta, t, intersection, denom, self.normal, self.mat))
            },
    {
        if Quad::is_parallel(denom) {
            return None;
        }
        if !ray_t.contains(t) {
            return None;
        }
        if let Some(mut val) = Self::is_interior(alpha, beta, alpha_plus_beta) {
            val.t = t;
            val.p = intersection;
            val.mat = Some(self.mat);
            val.set_face_normal(denom, &self.normal);
            Some(val)
        } else {
            None
        }
    }
}

} // verus!
