//! What a ray learns where it meets a surface, and how the library refers
//! to the shapes of a scene.

use crate::aabb::AABB;
use crate::interval::Interval;
use crate::scalar::{value_lt, Scalar, Value};
use crate::vec3::Vector;
use vstd::prelude::*;

verus! {

/// The meeting of a ray with a surface.
///
/// `mat` is the handle of the surface's material in the caller's table of
/// materials.
#[derive(Clone, Copy, Debug)]
pub struct HitRecord {
    pub p: Vector,
    pub normal: Vector,
    pub mat: Option<usize>,
    pub t: Scalar,
    pub u: Scalar,
    pub v: Scalar,
    pub front_face: bool,
}

/// A shape of the scene as the library knows it: a handle by which the
/// caller finds the shape again, and the box that bounds it.
#[derive(Clone, Copy, Debug)]
pub struct Object {
    pub id: usize,
    pub bbox: AABB,
}

impl HitRecord {
    /// A record at point `a` with normal `b`, ray parameter `c` and face
    /// flag `d`; no material, and both surface coordinates zero.
    pub fn new(a: Vector, b: Vector, c: Scalar, d: bool) -> (r: Self)
        ensures
            r == (HitRecord {
                p: a,
                normal: b,
                mat: None,
                t: c,
                u: Scalar { bits: 0 },
                v: Scalar { bits: 0 },
                front_face: d,
            }),
    {
        Self {
            p: a,
            normal: b,
            mat: None,
            t: c,
            u: Scalar::zero(),
            v: Scalar::zero(),
            front_face: d,
        }
    }

    /// Turns the normal against the ray. `alignment` is the dot product of
    /// the ray's direction with `outward_normal`: where it is negative the
    /// ray meets the front face and the normal is kept, otherwise the normal
    /// is turned round.
    pub fn set_face_normal(&mut self, alignment: Scalar, outward_normal: &Vector)
        ensures
            final(self).front_face == faces_front(alignment),
            final(self).normal == if faces_front(alignment) {
                *outward_normal
            } else {
                outward_normal.opposite()
            },
            final(self).p == old(self).p,
            final(self).mat == old(self).mat,
            final(self).t == old(self).t,
            final(self).u == old(self).u,
            final(self).v == old(self).v,
    {
        self.front_face = alignment.lt(Scalar::zero());
        if self.front_face {
            self.normal = *outward_normal;
        } else {
            self.normal = outward_normal.neg();
        }
    }
}

/// Whether a ray with this dot product against the outward normal meets the
/// front face: the product is below zero.
pub open spec fn faces_front(alignment: Scalar) -> bool {
    value_lt(alignment@, Value::Finite(0))
}

impl Default for HitRecord {
    /// The record with every number zero, no material and the face flag
    /// down.
    fn default() -> (r: Self)
        ensures
            r == HitRecord::blank(),
    {
        let o = Vector::new(Scalar::zero(), Scalar::zero(), Scalar::zero());
        Self {
            p: o,
            normal: o,
            mat: None,
            t: Scalar::zero(),
            u: Scalar::zero(),
            v: Scalar::zero(),
            front_face: false,
        }
    }
}

impl HitRecord {
    /// What [`HitRecord::default`] returns.
    pub open spec fn blank() -> HitRecord {
        let z = Scalar { bits: 0 };
        let o = Vector { x: z, y: z, z: z };
        HitRecord { p: o, normal: o, mat: None, t: z, u: z, v: z, front_face: false }
    }
}

/// The window `ray_t` with its far end drawn in to the hit `found`, where
/// there is one.
pub open spec fn shrunk(ray_t: Interval, found: Option<HitRecord>) -> Interval {
    match found {
        Some(h) => Interval { min: ray_t.min, max: h.t },
        None => ray_t,
    }
}

/// A shape moved by `offset`. `object` is the handle of the shape and
/// `bbox` its box, moved likewise.
#[derive(Clone, Copy, Debug)]
pub struct Translate {
    pub object: usize,
    pub offset: Vector,
    pub bbox: AABB,
}

/// A shape turned about the `y` axis by the angle with the given sine and
/// cosine. `object` is the handle of the shape.
#[derive(Clone, Copy, Debug)]
pub struct RotateY {
    pub object: usize,
    pub sin_theta: Scalar,
    pub cos_theta: Scalar,
    pub bbox: AABB,
}

/// The point whose every coordinate is the least among `points`, starting
/// from plus infinity.
pub open spec fn low_corner(points: Seq<Vector>) -> Vector
    decreases points.len(),
{
    if points.len() == 0 {
        let inf = Scalar { bits: crate::scalar::INFINITY_BITS };
        Vector { x: inf, y: inf, z: inf }
    } else {
        let acc = low_corner(points.drop_last());
        let p = points.last();
        Vector {
            x: crate::scalar::lesser(acc.x, p.x),
            y: crate::scalar::lesser(acc.y, p.y),
            z: crate::scalar::lesser(acc.z, p.z),
        }
    }
}

/// The point whose every coordinate is the greatest among `points`,
/// starting from minus infinity.
pub open spec fn high_corner(points: Seq<Vector>) -> Vector
    decreases points.len(),
{
    if points.len() == 0 {
        let inf = Scalar { bits: 0xFFF0_0000_0000_0000 };
        Vector { x: inf, y: inf, z: inf }
    } else {
        let acc = high_corner(points.drop_last());
        let p = points.last();
        Vector {
            x: crate::scalar::greater(acc.x, p.x),
            y: crate::scalar::greater(acc.y, p.y),
            z: crate::scalar::greater(acc.z, p.z),
        }
    }
}

impl Translate {
    /// The shape `a` moved by `b`, bounded by `moved_box`.
    pub fn new(a: usize, b: &Vector, moved_box: AABB) -> (r: Self)
        ensures
            r == (Translate { object: a, offset: *b, bbox: moved_box }),
    {
        Self { object: a, offset: *b, bbox: moved_box }
    }

    /// The box that bounds the moved shape.
    pub fn bounding_box(&self) -> (r: AABB)
        ensures
            r == self.bbox,
    {
        self.bbox
    }
}

impl RotateY {
    /// The shape `obj` turned by the angle with the given sine and cosine.
    /// `corners` are the eight corners of the shape's box after the turn;
    /// the turned shape is bounded by the box from their least coordinates
    /// to their greatest, made as in [`AABB::point_new`].
    pub fn new<E: Fn(Interval) -> Scalar, X: Fn(Interval, Scalar) -> Interval>(
        obj: usize,
        sin_theta: Scalar,
        cos_theta: Scalar,
        corners: &[Vector; 8],
        extent: &E,
        expand: &X,
    ) -> (r: Self)
        requires
            forall|side: Interval| call_requires(extent, (side,)),
            forall|side: Interval, by: Scalar| call_requires(expand, (side, by)),
        ensures
            r.object == obj,
            r.sin_theta == sin_theta,
            r.cos_theta == cos_theta,
            crate::aabb::padded(
                crate::aabb::ordered(low_corner(corners@).x, high_corner(corners@).x),
                extent,
                expand,
                r.bbox.x,
            ),
            crate::aabb::padded(
                crate::aabb::ordered(low_corner(corners@).y, high_corner(corners@).y),
                extent,
                expand,
                r.bbox.y,
            ),
            crate::aabb::padded(
                crate::aabb::ordered(low_corner(corners@).z, high_corner(corners@).z),
                extent,
                expand,
                r.bbox.z,
            ),
    {
        let mut min = Vector::new(Scalar::infinity(), Scalar::infinity(), Scalar::infinity());
        let mut max = Vector::new(
            Scalar::neg_infinity(),
            Scalar::neg_infinity(),
            Scalar::neg_infinity(),
        );
        let mut k: usize = 0;
        while k < 8
            invariant
                k <= 8,
                min == low_corner(corners@.take(k as int)),
                max == high_corner(corners@.take(k as int)),
            decreases 8 - k,
        {
            let tester = corners[k];
            proof {
                let upto = corners@.take(k + 1);
                assert(upto.drop_last() == corners@.take(k as int));
                assert(upto.last() == tester);
            }
            min.x = min.x.min(tester.x);
            min.y = min.y.min(tester.y);
            min.z = min.z.min(tester.z);
            max.x = max.x.max(tester.x);
            max.y = max.y.max(tester.y);
            max.z = max.z.max(tester.z);
            k = k + 1;
        }
        proof {
            assert(corners@.take(8) == corners@);
        }
        Self { object: obj, sin_theta, cos_theta, bbox: AABB::point_new(&min, &max, extent, expand) }
    }

    /// The box that bounds the turned shape.
    pub fn bounding_box(&self) -> (r: AABB)
        ensures
            r == self.bbox,
    {
        self.bbox
    }
}

} // verus!
