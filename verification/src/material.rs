//! Materials: what they decide once the caller has done the arithmetic.

use crate::hittable::HitRecord;
use crate::interval::Interval;
use crate::pdf::{CosinePdf, SpherePdf, UNIFORM_SPHERE_BITS};
use crate::ray::Ray;
use crate::scalar::{value_lt, Scalar, ONE_BITS};
use crate::vec3::Vector;
use vstd::prelude::*;

verus! {

/// The density that a material hands on for the next bounce.
#[derive(Clone, Copy, Debug)]
pub enum SurfacePdf {
    Sphere(SpherePdf),
    Cosine(CosinePdf),
}

/// What a material makes of an incoming ray.
///
/// Where `skip_pdf` is set the material has fixed the outgoing ray itself,
/// as `skip_pdf_ray`, and `pdf_ptr` is empty; otherwise `pdf_ptr` holds the
/// density to draw the outgoing direction from.
#[derive(Clone, Copy, Debug)]
pub struct ScatterRecord {
    pub attenuation: Vector,
    pub pdf_ptr: Option<SurfacePdf>,
    pub skip_pdf: bool,
    pub skip_pdf_ray: Ray,
}

/// A matt surface.
#[derive(Clone, Copy, Debug)]
pub struct Lambertian {
    pub tex: usize,
}

/// A mirror, blurred by `fuzz`.
#[derive(Clone, Copy, Debug)]
pub struct Metal {
    pub albedo: Vector,
    pub fuzz: Scalar,
}

/// Glass and the like.
#[derive(Clone, Copy, Debug)]
pub struct Dielectric {
    pub refraction_index: Scalar,
}

/// A surface that gives off light from its front.
#[derive(Clone, Copy, Debug)]
pub struct DiffuseLight {
    pub tex: usize,
}

/// The phase function of a fog: it scatters evenly in all directions.
#[derive(Clone, Copy, Debug)]
pub struct Isotropic {
    pub tex: usize,
}

/// The ray that stands in a record where no ray is meant.
pub open spec fn no_ray() -> Ray {
    let z = Scalar { bits: 0 };
    let o = Vector { x: z, y: z, z: z };
    Ray { origin: o, direction: o, time: z }
}

fn blank_ray() -> (r: Ray)
    ensures
        r == no_ray(),
{
    let o = Vector::new(Scalar::zero(), Scalar::zero(), Scalar::zero());
    Ray::new(o, o, Scalar::zero())
}

impl Lambertian {
    /// The matt surface coloured by the texture with the handle `tex`.
    pub fn arc_new(tex: usize) -> (r: Self)
        ensures
            r.tex == tex,
    {
        Self { tex }
    }

    /// Scatters about the normal: `attenuation` is the texture's colour at
    /// the hit, `pdf` the cosine density about the normal.
    pub fn scatter(&self, attenuation: Vector, pdf: CosinePdf) -> (srec: ScatterRecord)
        ensures
            srec == (ScatterRecord {
                attenuation,
                pdf_ptr: Some(SurfacePdf::Cosine(pdf)),
                skip_pdf: false,
                skip_pdf_ray: no_ray(),
            }),
    {
        ScatterRecord {
            attenuation,
            pdf_ptr: Some(SurfacePdf::Cosine(pdf)),
            skip_pdf: false,
            skip_pdf_ray: blank_ray(),
        }
    }

    /// The density with which the surface scatters into any direction:
    /// the constant `1 / (4 * pi)`.
    pub fn scattering_pdf(&self) -> (r: Scalar)
        ensures
            r.bits == UNIFORM_SPHERE_BITS,
    {
        Scalar::from_bits(UNIFORM_SPHERE_BITS)
    }
}

impl Metal {
    /// The mirror of colour `a` with the blur `b`, held within `[0, 1]`.
    pub fn new(a: Vector, b: Scalar) -> (r: Self)
        ensures
            r.albedo == a,
            r.fuzz == unit_range().clamped(b),
    {
        let range = Interval::new(Scalar::zero(), Scalar::one());
        Self { albedo: a, fuzz: range.clamp(b) }
    }

    /// Reflects: the outgoing ray leaves the hit along `reflected`, the
    /// mirrored and blurred direction, at the time of the incoming ray.
    pub fn scatter(&self, r_in: &Ray, rec: &HitRecord, reflected: Vector) -> (srec: ScatterRecord)
        ensures
            srec == (ScatterRecord {
                attenuation: self.albedo,
                pdf_ptr: None,
                skip_pdf: true,
                skip_pdf_ray: Ray { origin: rec.p, direction: reflected, time: r_in.time },
            }),
    {
        ScatterRecord {
            attenuation: self.albedo,
            pdf_ptr: None,
            skip_pdf: true,
            skip_pdf_ray: Ray::new(rec.p, reflected, r_in.time),
        }
    }
}

/// The range from zero to one.
pub open spec fn unit_range() -> Interval {
    Interval { min: Scalar { bits: 0 }, max: Scalar { bits: ONE_BITS } }
}

/// Whether glass mirrors the ray: the ray cannot pass, or chance has it.
pub open spec fn mirrors(ri_sin_theta: Scalar, reflectance: Scalar, draw: Scalar) -> bool {
    value_lt((Scalar { bits: ONE_BITS })@, ri_sin_theta@) || value_lt(draw@, reflectance@)
}

impl Dielectric {
    /// Glass with the refraction index `a`.
    pub fn new(a: Scalar) -> (r: Self)
        ensures
            r.refraction_index == a,
    {
        Self { refraction_index: a }
    }

    /// The ratio of the refraction indices that the ray passes between: a
    /// ray that meets the front face enters the glass and the ratio is
    /// `inverted`, which is one over the index; a ray that meets the back
    /// face leaves it and the ratio is the index itself.
    pub fn refraction_ratio(&self, front_face: bool, inverted: Scalar) -> (r: Scalar)
        ensures
            r == if front_face {
                inverted
            } else {
                self.refraction_index
            },
    {
        if front_face {
            inverted
        } else {
            self.refraction_index
        }
    }

    /// Whether the ray is mirrored rather than bent. `ri_sin_theta` is the
    /// sine of the angle of incidence times the ratio of the indices: above
    /// one the ray cannot pass. `reflectance` is the share that is mirrored
    /// at this angle, `draw` a number drawn evenly from `[0, 1)`.
    pub fn reflects(ri_sin_theta: Scalar, reflectance: Scalar, draw: Scalar) -> (r: bool)
        ensures
            r == mirrors(ri_sin_theta, reflectance, draw),
    {
        let cannot_refract = ri_sin_theta.gt(Scalar::one());
        cannot_refract || reflectance.gt(draw)
    }

    /// Mirrors or bends: nothing is absorbed, and the outgoing ray leaves
    /// the hit along `reflected` where the ray is mirrored, along
    /// `refracted` otherwise.
    pub fn scatter(
        &self,
        r_in: &Ray,
        rec: &HitRecord,
        ri_sin_theta: Scalar,
        reflectance: Scalar,
        draw: Scalar,
        reflected: Vector,
        refracted: Vector,
    ) -> (srec: ScatterRecord)
        ensures
            srec == (ScatterRecord {
                attenuation: white(),
                pdf_ptr: None,
                skip_pdf: true,
                skip_pdf_ray: Ray {
                    origin: rec.p,
                    direction: if mirrors(ri_sin_theta, reflectance, draw) {
                        reflected
                    } else {
                        refracted
                    },
                    time: r_in.time,
                },
            }),
    {
        let direction = if Self::reflects(ri_sin_theta, reflectance, draw) {
            reflected
        } else {
            refracted
        };
        ScatterRecord {
            attenuation: Vector::new(Scalar::one(), Scalar::one(), Scalar::one()),
            pdf_ptr: None,
            skip_pdf: true,
            skip_pdf_ray: Ray::new(rec.p, direction, r_in.time),
        }
    }
}

/// The colour that takes nothing away.
pub open spec fn white() -> Vector {
    let one = Scalar { bits: ONE_BITS };
    Vector { x: one, y: one, z: one }
}

/// The colour of no light.
pub open spec fn black() -> Vector {
    let z = Scalar { bits: 0 };
    Vector { x: z, y: z, z: z }
}

impl DiffuseLight {
    /// The light coloured by the texture with the handle `t`.
    pub fn new(t: usize) -> (r: Self)
        ensures
            r.tex == t,
    {
        Self { tex: t }
    }

    /// What the surface gives off at a hit: `colour`, the texture's colour
    /// there, from the front face and nothing from the back.
    pub fn emitted(&self, rec: &HitRecord, colour: Vector) -> (r: Vector)
        ensures
            r == if rec.front_face {
                colour
            } else {
                black()
            },
    {
        if !rec.front_face {
            return Vector::new(Scalar::zero(), Scalar::zero(), Scalar::zero());
        }
        colour
    }
}

impl Isotropic {
    /// The phase function coloured by the texture with the handle `t`.
    pub fn new(t: usize) -> (r: Self)
        ensures
            r.tex == t,
    {
        Self { tex: t }
    }

    /// Scatters evenly: `attenuation` is the texture's colour at the hit.
    pub fn scatter(&self, attenuation: Vector) -> (srec: ScatterRecord)
        ensures
            srec == (ScatterRecord {
                attenuation,
                pdf_ptr: Some(SurfacePdf::Sphere(SpherePdf {  })),
                skip_pdf: false,
                skip_pdf_ray: no_ray(),
            }),
    {
        ScatterRecord {
            attenuation,
            pdf_ptr: Some(SurfacePdf::Sphere(SpherePdf {  })),
            skip_pdf: false,
            skip_pdf_ray: blank_ray(),
        }
    }
}

} // verus!
