//! Fog of constant density within a boundary.

use crate::hittable::HitRecord;
use crate::interval::Interval;
use crate::scalar::{value_le, value_lt, Scalar, Value, ONE_BITS};
use crate::vec3::Vector;
use vstd::prelude::*;

verus! {

/// A fog: the handle of the shape that bounds it, minus one over its
/// density, and the handle of its phase function, which is the material of
/// every hit inside it.
#[derive(Clone, Copy, Debug)]
pub struct ConstantMedium {
    pub boundary: usize,
    pub neg_inv_density: Scalar,
    pub phase_function: usize,
}

/// A ray's passage through the fog between two ray parameters:
/// `distance_inside` is the length of the way inside the boundary,
/// `hit_distance` the length after which the ray is scattered, drawn at
/// random, `t` the ray parameter at that length and `p` the point there.
#[derive(Clone, Copy, Debug)]
pub struct Flight {
    pub distance_inside: Scalar,
    pub hit_distance: Scalar,
    pub t: Scalar,
    pub p: Vector,
}

/// The part of the way from `t1` to `t2` that lies within `ray_t` and not
/// behind the ray's start, or nothing where no such part is left.
pub open spec fn clipped_span(t1: Scalar, t2: Scalar, ray_t: Interval) -> Option<(Scalar, Scalar)> {
    let a = if value_lt(t1@, ray_t.min@) {
        ray_t.min
    } else {
        t1
    };
    let b = if value_lt(ray_t.max@, t2@) {
        ray_t.max
    } else {
        t2
    };
    if value_le(b@, a@) {
        None
    } else if value_lt(a@, Value::Finite(0)) {
        Some((Scalar { bits: 0 }, b))
    } else {
        Some((a, b))
    }
}

/// The hit inside a fog with the phase function `mat` after the passage
/// `f`: nothing where the ray leaves the boundary before it is scattered.
pub open spec fn fog_hit(f: Flight, mat: usize) -> Option<HitRecord> {
    if value_lt(f.distance_inside@, f.hit_distance@) {
        None
    } else {
        Some(
            HitRecord {
                p: f.p,
                normal: Vector {
                    x: Scalar { bits: ONE_BITS },
                    y: Scalar { bits: 0 },
                    z: Scalar { bits: 0 },
                },
                mat: Some(mat),
                t: f.t,
                u: Scalar { bits: 0 },
                v: Scalar { bits: 0 },
                front_face: true,
            },
        )
    }
}

/// What a fog with the phase function `mat` reports within `ray_t` where
/// the boundary is entered at `entry` and left at `exit`, if at all, and
/// the passage between the two is `f`.
pub open spec fn fog_outcome(
    entry: Option<HitRecord>,
    exit: Option<HitRecord>,
    f: Flight,
    ray_t: Interval,
    mat: usize,
) -> Option<HitRecord> {
    match (entry, exit) {
        (Some(rec1), Some(rec2)) => match clipped_span(rec1.t, rec2.t, ray_t) {
            Some(_) => fog_hit(f, mat),
            None => None,
        },
        _ => None,
    }
}

/// Names the three answers that a query of a fog gathers.
pub open spec fn gathered(entry: Option<HitRecord>, exit: Option<HitRecord>, f: Flight) -> bool {
    true
}

impl ConstantMedium {
    /// The fog within the shape `b`, with minus one over its density and
    /// the phase function given by their handles.
    pub fn new(b: usize, neg_inv_density: Scalar, phase_function: usize) -> (r: Self)
        ensures
            r == (ConstantMedium { boundary: b, neg_inv_density, phase_function }),
    {
        Self { boundary: b, neg_inv_density, phase_function }
    }

    /// The part of the way between the two crossings of the boundary that
    /// counts: drawn in to `ray_t`, and started at the ray's own start
    /// where the ray starts inside.
    pub fn clip(t1: Scalar, t2: Scalar, ray_t: &Interval) -> (r: Option<(Scalar, Scalar)>)
        ensures
            r == clipped_span(t1, t2, *ray_t),
    {
        let mut a = t1;
        let mut b = t2;
        if a.lt(ray_t.min) {
            a = ray_t.min;
        }
        if b.gt(ray_t.max) {
            b = ray_t.max;
        }
        if a.ge(b) {
            None
        } else {
            if a.lt(Scalar::zero()) {
                a = Scalar::zero();
            }
            Some((a, b))
        }
    }

    /// Whether this is what a query within `ray_t` may return, given what
    /// the three functions may answer.
    pub open spec fn outcome<E: Fn(Interval) -> Option<HitRecord>, X: Fn(Scalar) -> Option<HitRecord>, F: Fn(Scalar, Scalar) -> Flight>(
        &self,
        enter: &E,
        leave: &X,
        flight: &F,
        ray_t: Interval,
        rec: Option<HitRecord>,
    ) -> bool {
        exists|entry: Option<HitRecord>, exit: Option<HitRecord>, f: Flight| #[trigger]
            gathered(entry, exit, f) && call_ensures(enter, (Interval::everything(),), entry) && (
            entry matches Some(rec1) ==> call_ensures(leave, (rec1.t,), exit) && (exit matches Some(
                rec2,
            ) ==> (clipped_span(rec1.t, rec2.t, ray_t) matches Some(span) ==> call_ensures(
                flight,
                (span.0, span.1),
                f,
            )))) && rec == fog_outcome(entry, exit, f, ray_t, self.phase_function)
    }

    /// The scattering of a ray inside the fog within `ray_t`.
    ///
    /// `enter` intersects the ray with the boundary within a window and is
    /// asked for the first crossing anywhere along the ray's line; `leave`
    /// is asked for the next crossing after a given parameter. Where the
    /// ray crosses twice and part of the way between lies within `ray_t`,
    /// `flight` is asked for the passage over that part, and the ray is
    /// scattered where the length drawn does not exceed the way inside.
    /// The hit has the phase function as its material, an arbitrary normal
    /// and the front-face flag up.
    pub fn hit<E: Fn(Interval) -> Option<HitRecord>, X: Fn(Scalar) -> Option<HitRecord>, F: Fn(Scalar, Scalar) -> Flight>(
        &self,
        enter: &E,
        leave: &X,
        flight: &F,
        ray_t: &Interval,
    ) -> (rec: Option<HitRecord>)
        requires
            call_requires(enter, (Interval::everything(),)),
            forall|t: Scalar| call_requires(leave, (t,)),
            forall|a: Scalar, b: Scalar| call_requires(flight, (a, b)),
        ensures
            self.outcome(enter, leave, flight, *ray_t, rec),
    {
        let ghost unused = Flight {
            distance_inside: Scalar { bits: 0 },
            hit_distance: Scalar { bits: 0 },
            t: Scalar { bits: 0 },
            p: crate::material::black(),
        };
        let entry = enter(Interval::universe());
        if let Some(rec1) = entry {
            let exit = leave(rec1.t);
            if let Some(rec2) = exit {
                if let Some((a, b)) = Self::clip(rec1.t, rec2.t, ray_t) {
                    let f = flight(a, b);
                    proof {
                        assert(gathered(entry, exit, f));
                    }
                    if f.hit_distance.gt(f.distance_inside) {
                        return None;
                    }
                    Some(
                        HitRecord {
                            p: f.p,
                            normal: Vector::new(Scalar::one(), Scalar::zero(), Scalar::zero()),
                            mat: Some(self.phase_function),
                            t: f.t,
                            u: Scalar::zero(),
                            v: Scalar::zero(),
                            front_face: true,
                        },
                    )
                } else {
                    proof {
                        assert(gathered(entry, exit, unused));
                    }
                    None
                }
            } else {
                proof {
                    assert(gathered(entry, exit, unused));
                }
                None
            }
        } else {
            proof {
                assert(gathered(entry, None, unused));
            }
            None
        }
    }
}

} // verus!
