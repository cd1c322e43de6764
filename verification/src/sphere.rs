//! Spheres: which root of the quadratic counts.

use crate::aabb::AABB;
use crate::hittable::{faces_front, HitRecord};
use crate::interval::Interval;
use crate::scalar::{value_lt, Scalar, Value};
use crate::vec3::Vector;
use vstd::prelude::*;

verus! {

/// A sphere, at rest or moving along `center_vec` during the shutter
/// interval. `mat` is the handle of its material.
#[derive(Clone, Copy, Debug)]
pub struct Sphere {
    pub center1: Vector,
    pub radius: Scalar,
    pub mat: Option<usize>,
    pub is_moving: bool,
    pub center_vec: Vector,
    pub bbox: AABB,
}

/// The root at which a ray meets a sphere within the window `ray_t`: none
/// where the discriminant is negative, else the nearer root where it lies
/// strictly inside the window, else the farther one where that does.
pub open spec fn chosen_root(
    discriminant: Scalar,
    near_root: Scalar,
    far_root: Scalar,
    ray_t: Interval,
) -> Option<Scalar> {
    if value_lt(discriminant@, Value::Finite(0)) {
        None
    } else if ray_t.holds_inside(near_root) {
        Some(near_root)
    } else if ray_t.holds_inside(far_root) {
        Some(far_root)
    } else {
        None
    }
}

impl Sphere {
    /// The sphere at rest about `c` with radius `r` and the material `m`,
    /// bounded by `bbox`, the box from `c - (r, r, r)` to `c + (r, r, r)`.
    pub fn new(c: Vector, r: Scalar, m: usize, bbox: AABB) -> (s: Self)
        ensures
            s == (Sphere {
                center1: c,
                radius: r,
                mat: Some(m),
                is_moving: false,
                center_vec: crate::material::black(),
                bbox,
            }),
    {
        Self {
            center1: c,
            radius: r,
            mat: Some(m),
            is_moving: false,
            center_vec: Vector::new(Scalar::zero(), Scalar::zero(), Scalar::zero()),
            bbox,
        }
    }

    /// The sphere that moves from `c` by `travel` during the shutter
    /// interval. `box1` bounds it at the start and `box2` at the end.
    pub fn new_moving(c: Vector, travel: Vector, r: Scalar, m: usize, box1: &AABB, box2: &AABB) -> (s:
        Self)
        ensures
            s == (Sphere {
                center1: c,
                radius: r,
                mat: Some(m),
                is_moving: true,
                center_vec: travel,
                bbox: AABB::union(*box1, *box2),
            }),
    {
        Self {
            center1: c,
            radius: r,
            mat: Some(m),
            is_moving: true,
            center_vec: travel,
            bbox: AABB::box_new(box1, box2),
        }
    }

    /// The box that bounds the sphere.
    pub fn bounding_box(&self) -> (r: AABB)
        ensures
            r == self.bbox,
    {
        self.bbox
    }

    /// What [`Sphere::record`] returns.
    pub open spec fn hit_at(
        &self,
        root: Scalar,
        p: Vector,
        outward_normal: Vector,
        alignment: Scalar,
        u: Scalar,
        v: Scalar,
    ) -> HitRecord {
        HitRecord {
            p,
            normal: if faces_front(alignment) {
                outward_normal
            } else {
                outward_normal.opposite()
            },
            mat: self.mat,
            t: root,
            u,
            v,
            front_face: faces_front(alignment),
        }
    }

    /// The record of a hit on the sphere at the ray parameter `root`. `p` is
    /// the point there, `outward_normal` the unit normal that points away
    /// from the centre at the ray's time, `alignment` the dot product of the
    /// ray's direction with it, and `(u, v)` the surface coordinates. The
    /// normal is turned against the ray and the material is the sphere's.
    pub fn record(
        &self,
        root: Scalar,
        p: Vector,
        outward_normal: &Vector,
        alignment: Scalar,
        u: Scalar,
        v: Scalar,
    ) -> (rec: HitRecord)
        ensures
            rec == self.hit_at(root, p, *outward_normal, alignment, u, v),
    {
        let mut rec = HitRecord::new(p, *outward_normal, root, false);
        rec.set_face_normal(alignment, outward_normal);
        rec.u = u;
        rec.v = v;
        rec.mat = self.mat;
        rec
    }

    /// The ray parameter at which the ray meets the sphere within `ray_t`.
    /// `discriminant` is that of the quadratic, `near_root` and `far_root`
    /// its two roots, the lesser first.
    pub fn hit(discriminant: Scalar, near_root: Scalar, far_root: Scalar, ray_t: &Interval) -> (r:
        Option<Scalar>)
        ensures
            r == chosen_root(discriminant, near_root, far_root, *ray_t),
    {
        if discriminant.lt(Scalar::zero()) {
            None
        } else {
            let mut root = near_root;
            if !ray_t.surrounds(root) {
                root = far_root;
                if !ray_t.surrounds(root) {
                    return None;
                }
            }
            Some(root)
        }
    }
}

/// What a hit on a sphere is like: the ray parameter lies strictly inside
/// the window, the point and the material are those handed in and the
/// sphere's, the face flag is up exactly where the ray runs against the
/// outward normal, and the normal of the record is the outward normal where
/// the flag is up and its opposite otherwise, so that it never runs along
/// with the ray.
pub proof fn lemma_sphere_hit_opposes_the_ray(
    sphere: Sphere,
    discriminant: Scalar,
    near_root: Scalar,
    far_root: Scalar,
    ray_t: Interval,
    p: Vector,
    outward_normal: Vector,
    alignment: Scalar,
    u: Scalar,
    v: Scalar,
)
    requires
        chosen_root(discriminant, near_root, far_root, ray_t) is Some,
    ensures
        ({
            let t = chosen_root(discriminant, near_root, far_root, ray_t).unwrap();
            let rec = sphere.hit_at(t, p, outward_normal, alignment, u, v);
            &&& ray_t.holds_inside(rec.t)
            &&& rec.t == near_root || (rec.t == far_root && !ray_t.holds_inside(near_root))
            &&& rec.p == p
            &&& rec.mat == sphere.mat
            &&& rec.front_face == value_lt(alignment@, Value::Finite(0))
            &&& rec.front_face ==> rec.normal == outward_normal
            &&& !rec.front_face ==> rec.normal.x@ == crate::scalar::value_neg(outward_normal.x@)
                && rec.normal.y@ == crate::scalar::value_neg(outward_normal.y@) && rec.normal.z@
                == crate::scalar::value_neg(outward_normal.z@)
        }),
{
    crate::vec3::lemma_opposite_negates(outward_normal);
}

} // verus!
