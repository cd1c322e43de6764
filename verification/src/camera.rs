//! The camera and the integrator: how deep a path is followed, what a path
//! is worth where it ends, how the samples of a pixel are gathered and how
//! a colour becomes a pixel.
//!
//! Everything that is arithmetic on reals is done by functions that the
//! caller hands in; the library decides which of them is asked, in which
//! order and with what.

use crate::hittable::HitRecord;
use crate::interval::Interval;
use crate::material::{black, ScatterRecord};
use crate::pixel_buffer::PixelBuffer;
use crate::ray::Ray;
use crate::scalar::{value_le, value_lt, Scalar, Value};
use crate::vec3::Vector;
use vstd::prelude::*;

verus! {

/// The pattern of `0.999`, the brightest level that a channel may take.
pub const BRIGHTEST_BITS: u64 = 0x3FEF_F7CE_D916_872B;

/// The camera: what the caller sets, and what is worked out from it before
/// a render.
#[derive(Clone, Copy, Debug)]
pub struct Camera {
    pub aspect_ratio: Scalar,
    pub image_width: u32,
    pub image_height: u32,
    pub samples_per_pixel: u32,
    pub pixel_samples_scale: Scalar,
    pub center: Vector,
    pub pixel00_loc: Vector,
    pub pixel_delta_u: Vector,
    pub pixel_delta_v: Vector,
    pub max_depth: u32,
    pub vfov: Scalar,
    pub lookfrom: Vector,
    pub lookat: Vector,
    pub vup: Vector,
    pub u: Vector,
    pub v: Vector,
    pub w: Vector,
    pub defocus_angle: Scalar,
    pub focus_dist: Scalar,
    pub defocus_disk_u: Vector,
    pub defocus_disk_v: Vector,
    pub background: Vector,
    pub sqrt_spp: i32,
    pub recip_sqrt_spp: Scalar,
}

/// What a material makes of a hit: the light it gives off there, and how
/// it scatters the ray, if it does.
#[derive(Clone, Copy, Debug)]
pub struct Shading {
    pub emitted: Vector,
    pub scatter: Option<ScatterRecord>,
}

/// A direction drawn for the next bounce: the ray along it, the density
/// with which it was drawn and the density with which the material
/// scatters into it.
#[derive(Clone, Copy, Debug)]
pub struct Sampled {
    pub scattered: Ray,
    pub pdf: Scalar,
    pub scattering_pdf: Scalar,
}

/// The least whole number whose square is at least `n`.
pub open spec fn grid_side_of(n: int) -> int
    decreases n,
{
    if n <= 0 {
        0
    } else {
        let k = grid_side_of(n - 1);
        if k * k >= n {
            k
        } else {
            k + 1
        }
    }
}

/// The side is the root of the count, rounded up.
pub proof fn lemma_grid_side_is_root(n: int)
    requires
        0 <= n,
    ensures
        0 <= grid_side_of(n),
        grid_side_of(n) * grid_side_of(n) >= n,
        n > 0 ==> (grid_side_of(n) - 1) * (grid_side_of(n) - 1) < n,
        n == 0 ==> grid_side_of(n) == 0,
    decreases n,
{
    if n > 0 {
        lemma_grid_side_is_root(n - 1);
        let k = grid_side_of(n - 1);
        if k * k >= n {
            if n - 1 == 0 {
                assert(k == 0);
                assert(k * k == 0);
            }
        } else {
            assert(k * k == n - 1);
            assert((k + 1) * (k + 1) >= n) by (nonlinear_arith)
                requires
                    k * k == n - 1,
                    0 <= k,
            ;
        }
    }
}

/// A whole number whose square is at least `n`, while the square of the
/// number before is less, is the side.
pub proof fn lemma_root_is_grid_side(n: int, k: int)
    requires
        0 < n,
        0 < k,
        (k - 1) * (k - 1) < n <= k * k,
    ensures
        grid_side_of(n) == k,
{
    lemma_grid_side_is_root(n);
    let g = grid_side_of(n);
    if g < k {
        assert(g * g <= (k - 1) * (k - 1)) by (nonlinear_arith)
            requires
                0 <= g <= k - 1,
        ;
    } else if g > k {
        assert(k * k <= (g - 1) * (g - 1)) by (nonlinear_arith)
            requires
                0 <= k <= g - 1,
        ;
    }
}

/// Names what one step of a path gathers.
pub open spec fn traced(found: Option<HitRecord>, lit: Shading, s: Sampled, inner: Vector) -> bool {
    true
}

/// The place of the sub-sample in column `a` and row `b` of a grid of side
/// `n`, the sub-samples being taken row by row.
pub open spec fn grid_place(a: int, b: int, n: int) -> int {
    b * n + a
}

impl Camera {
    /// The camera as it stands before anything is set.
    pub open spec fn standard() -> Camera {
        let z = Scalar { bits: 0 };
        let o = Vector { x: z, y: z, z: z };
        Camera {
            aspect_ratio: Scalar { bits: 0x3FFC_71C7_1C71_C71C },
            image_width: 1920,
            image_height: 0,
            samples_per_pixel: 2500,
            pixel_samples_scale: z,
            center: o,
            pixel00_loc: o,
            pixel_delta_u: o,
            pixel_delta_v: o,
            max_depth: 50,
            vfov: Scalar { bits: 0x4044_0000_0000_0000 },
            lookfrom: Vector {
                x: Scalar { bits: 0x4089_0000_0000_0000 },
                y: Scalar { bits: 0x407C_2000_0000_0000 },
                z: Scalar { bits: 0xC089_0000_0000_0000 },
            },
            lookat: Vector {
                x: Scalar { bits: 0x4089_0000_0000_0000 },
                y: Scalar { bits: 0x407C_2000_0000_0000 },
                z: z,
            },
            vup: Vector { x: z, y: Scalar { bits: crate::scalar::ONE_BITS }, z: z },
            u: o,
            v: o,
            w: o,
            defocus_angle: z,
            focus_dist: Scalar { bits: 0x4024_0000_0000_0000 },
            defocus_disk_u: o,
            defocus_disk_v: o,
            background: o,
            sqrt_spp: 0,
            recip_sqrt_spp: z,
        }
    }

    /// The side of the grid of sub-samples for `samples_per_pixel` samples:
    /// the root of the count, rounded up.
    pub fn grid_side(samples_per_pixel: u32) -> (r: i32)
        ensures
            r == grid_side_of(samples_per_pixel as int),
            0 <= r <= 65536,
    {
        if samples_per_pixel == 0 {
            return 0;
        }
        let n: u64 = samples_per_pixel as u64;
        let mut k: u64 = 1;
        let mut square: u64 = 1;
        while square < n
            invariant
                1 <= k <= 65536,
                square == k * k,
                (k - 1) * (k - 1) < n,
                n <= 0xFFFF_FFFF,
            decreases 65536 - k,
        {
            assert(k < 65536) by (nonlinear_arith)
                requires
                    k * k < n,
                    n <= 0xFFFF_FFFF,
                    k <= 65536,
            ;
            assert((k + 1) * (k + 1) == k * k + 2 * k + 1) by (nonlinear_arith);
            assert(k * k <= 65536 * 65536) by (nonlinear_arith)
                requires
                    0 <= k <= 65536,
            ;
            square = square + 2 * k + 1;
            k = k + 1;
        }
        proof {
            lemma_root_is_grid_side(n as int, k as int);
        }
        k as i32
    }

    /// Sets what a render needs and what is a whole number: the height of
    /// the picture, which is `rows` or one where `rows` is zero, and the
    /// side of the grid of sub-samples. `rows` is the width divided by the
    /// aspect ratio, rounded; the geometry of the viewport is for the
    /// caller to fill in.
    pub fn initialise(&mut self, rows: u32)
        ensures
            *final(self) == (Camera {
                image_height: if rows < 1 {
                    1u32
                } else {
                    rows
                },
                sqrt_spp: grid_side_of(old(self).samples_per_pixel as int) as i32,
                ..*old(self)
            }),
    {
        self.image_height = if rows < 1 {
            1
        } else {
            rows
        };
        self.sqrt_spp = Self::grid_side(self.samples_per_pixel);
    }

    /// Whether `out` is what following the ray `r` for at most `depth`
    /// bounces may be worth, given what the five functions may answer.
    ///
    /// At depth zero a path is worth nothing. A ray that hits nothing is
    /// worth the background. A hit on a surface that does not scatter is
    /// worth what the surface gives off. Where the material has fixed the
    /// outgoing ray, the path is worth what that ray is worth at one bounce
    /// less, tinted; otherwise a direction is drawn and the path is worth
    /// what the ray along it is worth at one bounce less, weighed by the
    /// two densities, and what the surface gives off.
    pub open spec fn radiance<H: Fn(Ray) -> Option<HitRecord>, M: Fn(Ray, HitRecord) -> Shading, D: Fn(Ray, HitRecord, ScatterRecord, bool) -> Sampled, T: Fn(Vector, Vector) -> Vector, W: Fn(Vector, Vector, Scalar, Scalar, Vector) -> Vector>(
        &self,
        r: Ray,
        depth: u32,
        lights: usize,
        hit: &H,
        shade: &M,
        sample: &D,
        tint: &T,
        weigh: &W,
        out: Vector,
    ) -> bool
        decreases depth,
    {
        if depth == 0 {
            out == black()
        } else {
            exists|found: Option<HitRecord>, lit: Shading, s: Sampled, inner: Vector| #[trigger]
                traced(found, lit, s, inner) && call_ensures(hit, (r,), found) && match found {
                    None => out == self.background,
                    Some(rec) => call_ensures(shade, (r, rec), lit) && match lit.scatter {
                        None => out == lit.emitted,
                        Some(srec) => if srec.skip_pdf {
                            self.radiance(
                                srec.skip_pdf_ray,
                                (depth - 1) as u32,
                                lights,
                                hit,
                                shade,
                                sample,
                                tint,
                                weigh,
                                inner,
                            ) && call_ensures(tint, (srec.attenuation, inner), out)
                        } else {
                            call_ensures(sample, (r, rec, srec, lights > 0), s) && self.radiance(
                                s.scattered,
                                (depth - 1) as u32,
                                lights,
                                hit,
                                shade,
                                sample,
                                tint,
                                weigh,
                                inner,
                            ) && call_ensures(
                                weigh,
                                (srec.attenuation, inner, s.scattering_pdf, s.pdf, lit.emitted),
                                out,
                            )
                        },
                    },
                }
        }
    }

    /// What the light arriving along the ray `r` is worth, following the
    /// path for at most `depth` bounces.
    ///
    /// `hit` finds the nearest hit of a ray in the scene; `shade` asks the
    /// material at a hit what it gives off and how it scatters; `sample`
    /// draws the direction of the next bounce and evaluates the densities;
    /// `tint` multiplies a colour by a colour; `weigh` works out
    /// `attenuation * colour * scattering_pdf / pdf + emitted`.
    ///
    /// `lights` is the number of shapes to aim at. Where there are some,
    /// `sample` is told to draw from the even mixture of the density that
    /// aims at them and the material's own; where there are none, it is told
    /// to draw from the material's own density alone.
    pub fn ray_color<H: Fn(Ray) -> Option<HitRecord>, M: Fn(Ray, HitRecord) -> Shading, D: Fn(Ray, HitRecord, ScatterRecord, bool) -> Sampled, T: Fn(Vector, Vector) -> Vector, W: Fn(Vector, Vector, Scalar, Scalar, Vector) -> Vector>(
        &self,
        r: &Ray,
        depth: u32,
        lights: usize,
        hit: &H,
        shade: &M,
        sample: &D,
        tint: &T,
        weigh: &W,
    ) -> (out: Vector)
        requires
            forall|a: Ray| call_requires(hit, (a,)),
            forall|a: Ray, b: HitRecord| call_requires(shade, (a, b)),
            forall|a: Ray, b: HitRecord, c: ScatterRecord, d: bool| call_requires(sample, (a, b, c, d)),
            forall|a: Vector, b: Vector| call_requires(tint, (a, b)),
            forall|a: Vector, b: Vector, c: Scalar, d: Scalar, e: Vector|
                call_requires(weigh, (a, b, c, d, e)),
        ensures
            self.radiance(*r, depth, lights, hit, shade, sample, tint, weigh, out),
            depth == 0 ==> out == black(),
        decreases depth,
    {
        let dark = Vector::new(Scalar::zero(), Scalar::zero(), Scalar::zero());
        if depth == 0 {
            return dark;
        }
        let ghost no_shading = Shading { emitted: dark, scatter: None };
        let ghost no_sample = Sampled { scattered: *r, pdf: Scalar { bits: 0 }, scattering_pdf: Scalar { bits: 0 } };
        let found = hit(*r);
        if let Some(rec) = found {
            let lit = shade(*r, rec);
            if let Some(srec) = lit.scatter {
                if srec.skip_pdf {
                    let inner = self.ray_color(
                        &srec.skip_pdf_ray,
                        depth - 1,
                        lights,
                        hit,
                        shade,
                        sample,
                        tint,
                        weigh,
                    );
                    let out = tint(srec.attenuation, inner);
                    proof {
                        assert(traced(found, lit, no_sample, inner));
                    }
                    return out;
                }
                let s = sample(*r, rec, srec, lights > 0);
                let inner = self.ray_color(
                    &s.scattered,
                    depth - 1,
                    lights,
                    hit,
                    shade,
                    sample,
                    tint,
                    weigh,
                );
                let out = weigh(srec.attenuation, inner, s.scattering_pdf, s.pdf, lit.emitted);
                proof {
                    assert(traced(found, lit, s, inner));
                }
                return out;
            }
            proof {
                assert(traced(found, lit, no_sample, dark));
            }
            lit.emitted
        } else {
            proof {
                assert(traced(found, no_shading, no_sample, dark));
            }
            self.background
        }
    }

    /// The number of sub-samples along one side of a pixel: `sqrt_spp`,
    /// or none where that is not positive.
    pub open spec fn side(&self) -> int {
        if self.sqrt_spp > 0 {
            self.sqrt_spp as int
        } else {
            0
        }
    }

    /// Whether `samples` and `sums` are what gathering the sub-samples of
    /// the pixel `(i, j)` over a grid of side `n` may give: the sub-samples
    /// are taken row by row, and each is added to the sum of those before
    /// it, which starts from black.
    pub open spec fn gathers<G: Fn(u32, u32, i32, i32) -> Vector, A: Fn(Vector, Vector) -> Vector>(
        n: int,
        i: u32,
        j: u32,
        sample: &G,
        plus: &A,
        samples: Seq<Vector>,
        sums: Seq<Vector>,
    ) -> bool {
        &&& samples.len() == n * n
        &&& sums.len() == n * n + 1
        &&& sums[0] == black()
        &&& forall|a: int, b: int|
            0 <= a < n && 0 <= b < n ==> call_ensures(
                sample,
                (i, j, a as i32, b as i32),
                #[trigger] samples[grid_place(a, b, n)],
            ) && call_ensures(
                plus,
                (sums[grid_place(a, b, n)], samples[grid_place(a, b, n)]),
                sums[grid_place(a, b, n) + 1],
            )
    }

    /// The sum of the sub-samples of the pixel `(i, j)`. `sample` estimates
    /// the light along one ray through the sub-cell `(s_i, s_j)` of the
    /// pixel, `plus` adds two colours. The grid has `sqrt_spp` cells a side,
    /// none where that is not positive.
    pub fn accumulate<G: Fn(u32, u32, i32, i32) -> Vector, A: Fn(Vector, Vector) -> Vector>(
        &self,
        i: u32,
        j: u32,
        sample: &G,
        plus: &A,
    ) -> (out: Vector)
        requires
            forall|a: u32, b: u32, c: i32, d: i32| call_requires(sample, (a, b, c, d)),
            forall|a: Vector, b: Vector| call_requires(plus, (a, b)),
        ensures
            exists|samples: Seq<Vector>, sums: Seq<Vector>| #[trigger]
                Self::gathers(
                    self.side(),
                    i,
                    j,
                    sample,
                    plus,
                    samples,
                    sums,
                ) && out == sums.last(),
    {
        let n: i32 = if self.sqrt_spp > 0 {
            self.sqrt_spp
        } else {
            0
        };
        let mut pixel_color = Vector::new(Scalar::zero(), Scalar::zero(), Scalar::zero());
        let ghost mut samples: Seq<Vector> = Seq::empty();
        let ghost mut sums: Seq<Vector> = seq![pixel_color];
        let mut s_j: i32 = 0;
        while s_j < n
            invariant
                0 <= s_j <= n,
                samples.len() == s_j * n,
                sums.len() == s_j * n + 1,
                sums[0] == black(),
                pixel_color == sums.last(),
                forall|a: u32, b: u32, c: i32, d: i32| call_requires(sample, (a, b, c, d)),
                forall|a: Vector, b: Vector| call_requires(plus, (a, b)),
                forall|a: int, b: int|
                    0 <= a < n && 0 <= b < n && grid_place(a, b, n as int) < samples.len()
                        ==> call_ensures(
                        sample,
                        (i, j, a as i32, b as i32),
                        #[trigger] samples[grid_place(a, b, n as int)],
                    ) && call_ensures(
                        plus,
                        (sums[grid_place(a, b, n as int)], samples[grid_place(a, b, n as int)]),
                        sums[grid_place(a, b, n as int) + 1],
                    ),
            decreases n - s_j,
        {
            let mut s_i: i32 = 0;
            while s_i < n
                invariant
                    0 <= s_i <= n,
                    0 <= s_j < n,
                    samples.len() == s_j * n + s_i,
                    sums.len() == s_j * n + s_i + 1,
                    sums[0] == black(),
                    pixel_color == sums.last(),
                    forall|a: u32, b: u32, c: i32, d: i32| call_requires(sample, (a, b, c, d)),
                    forall|a: Vector, b: Vector| call_requires(plus, (a, b)),
                    forall|a: int, b: int|
                        0 <= a < n && 0 <= b < n && grid_place(a, b, n as int) < samples.len()
                            ==> call_ensures(
                            sample,
                            (i, j, a as i32, b as i32),
                            #[trigger] samples[grid_place(a, b, n as int)],
                        ) && call_ensures(
                            plus,
                            (sums[grid_place(a, b, n as int)], samples[grid_place(a, b, n as int)]),
                            sums[grid_place(a, b, n as int) + 1],
                        ),
                decreases n - s_i,
            {
                let ghost before_samples = samples;
                let ghost before_sums = sums;
                let ghost here = grid_place(s_i as int, s_j as int, n as int);
                let c = sample(i, j, s_i, s_j);
                let next = plus(pixel_color, c);
                proof {
                    samples = samples.push(c);
                    sums = sums.push(next);
                    assert(here == before_samples.len());
                    assert forall|a: int, b: int|
                        0 <= a < n && 0 <= b < n && grid_place(a, b, n as int) < samples.len() implies call_ensures(
                        sample,
                        (i, j, a as i32, b as i32),
                        #[trigger] samples[grid_place(a, b, n as int)],
                    ) && call_ensures(
                        plus,
                        (sums[grid_place(a, b, n as int)], samples[grid_place(a, b, n as int)]),
                        sums[grid_place(a, b, n as int) + 1],
                    ) by {
                        let g = grid_place(a, b, n as int);
                        lemma_grid_place_bounds(a, b, n as int);
                        if g < here {
                            assert(samples[g] == before_samples[g]);
                            assert(sums[g] == before_sums[g]);
                            assert(sums[g + 1] == before_sums[g + 1]);
                        } else {
                            lemma_grid_places_differ(a, b, s_i as int, s_j as int, n as int);
                            assert(a == s_i && b == s_j);
                            assert(sums[g] == before_sums.last());
                        }
                    }
                }
                pixel_color = next;
                s_i = s_i + 1;
            }
            proof {
                assert(s_j * n + n == (s_j + 1) * n) by (nonlinear_arith);
            }
            s_j = s_j + 1;
        }
        proof {
            assert forall|a: int, b: int| 0 <= a < n && 0 <= b < n implies grid_place(a, b, n as int)
                < samples.len() by {
                lemma_grid_place_bounds(a, b, n as int);
            }
            assert(Self::gathers(n as int, i, j, sample, plus, samples, sums));
            assert(self.side() == n);
        }
        pixel_color
    }

    /// The gamma-corrected level of a channel: `root`, the square root of
    /// `linear_component`, where the component is above zero, and zero
    /// otherwise.
    pub fn linear_to_gamma(linear_component: Scalar, root: Scalar) -> (r: Scalar)
        ensures
            r == if value_lt(Value::Finite(0), linear_component@) {
                root
            } else {
                Scalar { bits: 0 }
            },
    {
        if linear_component.gt(Scalar::zero()) {
            root
        } else {
            Scalar::zero()
        }
    }

    /// What [`Camera::tone`] returns.
    pub open spec fn toned(channel: Scalar, root: Scalar) -> Scalar {
        if !(channel@ is Nan) && value_lt(Value::Finite(0), channel@) {
            Self::intensity().clamped(root)
        } else {
            Scalar { bits: 0 }
        }
    }

    /// The range of levels that a channel may take: from 0 to 0.999.
    pub open spec fn intensity() -> Interval {
        Interval { min: Scalar { bits: 0 }, max: Scalar { bits: BRIGHTEST_BITS } }
    }

    /// The level of a channel before it is scaled to a byte: a NaN counts
    /// as zero, the level is gamma-corrected by taking `root`, the square
    /// root of the channel, and held within `[0, 0.999]`.
    pub fn tone(channel: Scalar, root: Scalar) -> (r: Scalar)
        ensures
            r == Self::toned(channel, root),
            !(root@ is Nan) ==> Self::intensity().holds(r),
    {
        let intensity = Interval::new(Scalar::zero(), Scalar::from_bits(BRIGHTEST_BITS));
        let scrubbed = if channel.is_nan() {
            Scalar::zero()
        } else {
            channel
        };
        let level = Self::linear_to_gamma(scrubbed, root);
        proof {
            crate::scalar::lemma_brightest_is_positive();
        }
        intensity.clamp(level)
    }

    /// Writes the colour `pixel_color` to the pixel at column `i` and row
    /// `j`. `roots` holds the square roots of the three channels; `quantise`
    /// scales a level from `[0, 0.999]` to a byte.
    pub fn write_color<Q: Fn(Scalar) -> u8>(
        img: &mut PixelBuffer,
        i: u32,
        j: u32,
        pixel_color: &Vector,
        roots: &Vector,
        quantise: &Q,
    )
        requires
            old(img).wf(),
            i < old(img).width,
            j < old(img).height,
            forall|level: Scalar| call_requires(quantise, (level,)),
        ensures
            final(img).wf(),
            final(img).width == old(img).width,
            final(img).height == old(img).height,
            call_ensures(
                quantise,
                (Self::toned(pixel_color.x, roots.x),),
                final(img).pixel(i as int, j as int)@[0],
            ),
            call_ensures(
                quantise,
                (Self::toned(pixel_color.y, roots.y),),
                final(img).pixel(i as int, j as int)@[1],
            ),
            call_ensures(
                quantise,
                (Self::toned(pixel_color.z, roots.z),),
                final(img).pixel(i as int, j as int)@[2],
            ),
            forall|a: int, b: int|
                0 <= a < old(img).width && 0 <= b < old(img).height && (a != i || b != j)
                    ==> final(img).pixel(a, b) == old(img).pixel(a, b),
    {
        let rbyte: u8 = quantise(Self::tone(pixel_color.x, roots.x));
        let gbyte: u8 = quantise(Self::tone(pixel_color.y, roots.y));
        let bbyte: u8 = quantise(Self::tone(pixel_color.z, roots.z));
        img.put_pixel(i, j, [rbyte, gbyte, bbyte]);
    }

    /// Whether every ray starts at the centre of the camera rather than at
    /// a point of the lens: the lens is shut, which is where `defocus_angle`
    /// is zero or less.
    pub fn starts_at_center(&self) -> (r: bool)
        ensures
            r == value_le(self.defocus_angle@, Value::Finite(0)),
    {
        self.defocus_angle.le(Scalar::zero())
    }

    /// Whether `c` is what one sub-sample of the pixel `(i, j)` may be worth:
    /// what the ray that `get_ray` sends through the sub-cell `(a, b)` is
    /// worth when it is followed for at most `max_depth` bounces.
    pub open spec fn path_worth<R: Fn(u32, u32, i32, i32) -> Ray, H: Fn(Ray) -> Option<HitRecord>, M: Fn(Ray, HitRecord) -> Shading, D: Fn(Ray, HitRecord, ScatterRecord, bool) -> Sampled, T: Fn(Vector, Vector) -> Vector, W: Fn(Vector, Vector, Scalar, Scalar, Vector) -> Vector>(
        &self,
        i: u32,
        j: u32,
        a: int,
        b: int,
        lights: usize,
        get_ray: &R,
        hit: &H,
        shade: &M,
        draw: &D,
        tint: &T,
        weigh: &W,
        c: Vector,
    ) -> bool {
        exists|ray: Ray| #[trigger]
            call_ensures(get_ray, (i, j, a as i32, b as i32), ray) && self.radiance(
                ray,
                self.max_depth,
                lights,
                hit,
                shade,
                draw,
                tint,
                weigh,
                c,
            )
    }

    /// Whether `samples` and `sums` are what gathering the sub-samples of
    /// the pixel `(i, j)` may give: as [`Camera::gathers`] has it, each
    /// sub-sample being worth what [`Camera::path_worth`] says.
    pub open spec fn follows_paths<R: Fn(u32, u32, i32, i32) -> Ray, H: Fn(Ray) -> Option<HitRecord>, M: Fn(Ray, HitRecord) -> Shading, D: Fn(Ray, HitRecord, ScatterRecord, bool) -> Sampled, T: Fn(Vector, Vector) -> Vector, W: Fn(Vector, Vector, Scalar, Scalar, Vector) -> Vector, A: Fn(Vector, Vector) -> Vector>(
        &self,
        i: u32,
        j: u32,
        lights: usize,
        get_ray: &R,
        hit: &H,
        shade: &M,
        draw: &D,
        tint: &T,
        weigh: &W,
        plus: &A,
        samples: Seq<Vector>,
        sums: Seq<Vector>,
    ) -> bool {
        let n = self.side();
        &&& samples.len() == n * n
        &&& sums.len() == n * n + 1
        &&& sums[0] == black()
        &&& forall|a: int, b: int|
            0 <= a < n && 0 <= b < n ==> self.path_worth(
                i,
                j,
                a,
                b,
                lights,
                get_ray,
                hit,
                shade,
                draw,
                tint,
                weigh,
                #[trigger] samples[grid_place(a, b, n)],
            ) && call_ensures(
                plus,
                (sums[grid_place(a, b, n)], samples[grid_place(a, b, n)]),
                sums[grid_place(a, b, n) + 1],
            )
    }

    /// Whether `color` is what the pixel `(i, j)` may come to and `roots`
    /// what `root` may make of it: the sub-samples are gathered, and their
    /// sum is scaled by `pixel_samples_scale`.
    pub open spec fn averaged<R: Fn(u32, u32, i32, i32) -> Ray, H: Fn(Ray) -> Option<HitRecord>, M: Fn(Ray, HitRecord) -> Shading, D: Fn(Ray, HitRecord, ScatterRecord, bool) -> Sampled, T: Fn(Vector, Vector) -> Vector, W: Fn(Vector, Vector, Scalar, Scalar, Vector) -> Vector, A: Fn(Vector, Vector) -> Vector, S: Fn(Vector, Scalar) -> Vector, X: Fn(Vector) -> Vector>(
        &self,
        i: u32,
        j: u32,
        lights: usize,
        get_ray: &R,
        hit: &H,
        shade: &M,
        draw: &D,
        tint: &T,
        weigh: &W,
        plus: &A,
        scale: &S,
        root: &X,
        color: Vector,
        roots: Vector,
    ) -> bool {
        exists|samples: Seq<Vector>, sums: Seq<Vector>| #[trigger]
            self.follows_paths(i, j, lights, get_ray, hit, shade, draw, tint, weigh, plus, samples, sums) && call_ensures(
                scale,
                (sums.last(), self.pixel_samples_scale),
                color,
            ) && call_ensures(root, (color,), roots)
    }

    /// Whether `rgb` is what the pixel `(i, j)` of a render may show: the
    /// colour that the pixel comes to, each channel toned with its root and
    /// made a byte by `quantise`.
    pub open spec fn shows<R: Fn(u32, u32, i32, i32) -> Ray, H: Fn(Ray) -> Option<HitRecord>, M: Fn(Ray, HitRecord) -> Shading, D: Fn(Ray, HitRecord, ScatterRecord, bool) -> Sampled, T: Fn(Vector, Vector) -> Vector, W: Fn(Vector, Vector, Scalar, Scalar, Vector) -> Vector, A: Fn(Vector, Vector) -> Vector, S: Fn(Vector, Scalar) -> Vector, X: Fn(Vector) -> Vector, Q: Fn(Scalar) -> u8>(
        &self,
        i: u32,
        j: u32,
        lights: usize,
        get_ray: &R,
        hit: &H,
        shade: &M,
        draw: &D,
        tint: &T,
        weigh: &W,
        plus: &A,
        scale: &S,
        root: &X,
        quantise: &Q,
        rgb: [u8; 3],
    ) -> bool {
        exists|color: Vector, roots: Vector| #[trigger]
            self.averaged(i, j, lights, get_ray, hit, shade, draw, tint, weigh, plus, scale, root, color, roots) && call_ensures(
                quantise,
                (Self::toned(color.x, roots.x),),
                rgb@[0],
            ) && call_ensures(quantise, (Self::toned(color.y, roots.y),), rgb@[1]) && call_ensures(
                quantise,
                (Self::toned(color.z, roots.z),),
                rgb@[2],
            )
    }

    /// The colour of the pixel `(i, j)` and the square roots of its
    /// channels.
    ///
    /// For each cell of the grid of sub-samples, row by row, `get_ray` sends
    /// a ray through the cell and the ray is followed for at most
    /// `max_depth` bounces, as in [`Camera::ray_color`]; what the rays are
    /// worth is added up by `plus`, starting from black, and the sum is
    /// scaled by `pixel_samples_scale` through `scale`. `root` takes the
    /// square root of each channel.
    pub fn pixel_color<R: Fn(u32, u32, i32, i32) -> Ray, H: Fn(Ray) -> Option<HitRecord>, M: Fn(Ray, HitRecord) -> Shading, D: Fn(Ray, HitRecord, ScatterRecord, bool) -> Sampled, T: Fn(Vector, Vector) -> Vector, W: Fn(Vector, Vector, Scalar, Scalar, Vector) -> Vector, A: Fn(Vector, Vector) -> Vector, S: Fn(Vector, Scalar) -> Vector, X: Fn(Vector) -> Vector>(
        &self,
        i: u32,
        j: u32,
        lights: usize,
        get_ray: &R,
        hit: &H,
        shade: &M,
        draw: &D,
        tint: &T,
        weigh: &W,
        plus: &A,
        scale: &S,
        root: &X,
    ) -> (out: (Vector, Vector))
        requires
            forall|a: u32, b: u32, c: i32, d: i32| call_requires(get_ray, (a, b, c, d)),
            forall|a: Ray| call_requires(hit, (a,)),
            forall|a: Ray, b: HitRecord| call_requires(shade, (a, b)),
            forall|a: Ray, b: HitRecord, c: ScatterRecord, d: bool| call_requires(draw, (a, b, c, d)),
            forall|a: Vector, b: Vector| call_requires(tint, (a, b)),
            forall|a: Vector, b: Vector, c: Scalar, d: Scalar, e: Vector|
            call_requires(weigh, (a, b, c, d, e)),
            forall|a: Vector, b: Vector| call_requires(plus, (a, b)),
            forall|a: Vector, b: Scalar| call_requires(scale, (a, b)),
            forall|a: Vector| call_requires(root, (a,)),
        ensures
            self.averaged(i, j, lights, get_ray, hit, shade, draw, tint, weigh, plus, scale, root, out.0, out.1),
    {
        let sample = |a: u32, b: u32, c: i32, d: i32| -> (col: Vector)
            ensures
                exists|ray: Ray| #[trigger]
                    call_ensures(get_ray, (a, b, c, d), ray) && self.radiance(
                        ray,
                        self.max_depth,
                        lights,
                        hit,
                        shade,
                        draw,
                        tint,
                        weigh,
                        col,
                    ),
            {
                let r = get_ray(a, b, c, d);
                self.ray_color(&r, self.max_depth, lights, hit, shade, draw, tint, weigh)
            };
        let sum = self.accumulate(i, j, &sample, plus);
        let color = scale(sum, self.pixel_samples_scale);
        let roots = root(color);
        proof {
            let (samples, sums): (Seq<Vector>, Seq<Vector>) = choose|
                samples: Seq<Vector>,
                sums: Seq<Vector>,
            | #[trigger]
                Self::gathers(self.side(), i, j, &sample, plus, samples, sums) && sum
                    == sums.last();
            assert(self.follows_paths(i, j, lights, get_ray, hit, shade, draw, tint, weigh, plus, samples, sums));
        }
        (color, roots)
    }

    /// The picture of `image_width` by `image_height` pixels that the camera
    /// sees. The rows are done from the last to the first, each from left to
    /// right; each pixel comes to the colour that [`Camera::pixel_color`]
    /// gives and is written as [`Camera::write_color`] writes it.
    pub fn render<R: Fn(u32, u32, i32, i32) -> Ray, H: Fn(Ray) -> Option<HitRecord>, M: Fn(Ray, HitRecord) -> Shading, D: Fn(Ray, HitRecord, ScatterRecord, bool) -> Sampled, T: Fn(Vector, Vector) -> Vector, W: Fn(Vector, Vector, Scalar, Scalar, Vector) -> Vector, A: Fn(Vector, Vector) -> Vector, S: Fn(Vector, Scalar) -> Vector, X: Fn(Vector) -> Vector, Q: Fn(Scalar) -> u8>(
        &self,
        lights: usize,
        get_ray: &R,
        hit: &H,
        shade: &M,
        draw: &D,
        tint: &T,
        weigh: &W,
        plus: &A,
        scale: &S,
        root: &X,
        quantise: &Q,
    ) -> (img: PixelBuffer)
        requires
            self.image_width * self.image_height <= usize::MAX,
            forall|a: u32, b: u32, c: i32, d: i32| call_requires(get_ray, (a, b, c, d)),
            forall|a: Ray| call_requires(hit, (a,)),
            forall|a: Ray, b: HitRecord| call_requires(shade, (a, b)),
            forall|a: Ray, b: HitRecord, c: ScatterRecord, d: bool| call_requires(draw, (a, b, c, d)),
            forall|a: Vector, b: Vector| call_requires(tint, (a, b)),
            forall|a: Vector, b: Vector, c: Scalar, d: Scalar, e: Vector|
            call_requires(weigh, (a, b, c, d, e)),
            forall|a: Vector, b: Vector| call_requires(plus, (a, b)),
            forall|a: Vector, b: Scalar| call_requires(scale, (a, b)),
            forall|a: Vector| call_requires(root, (a,)),
            forall|level: Scalar| call_requires(quantise, (level,)),
        ensures
            img.wf(),
            img.width == self.image_width,
            img.height == self.image_height,
            forall|i: int, j: int|
                0 <= i < self.image_width && 0 <= j < self.image_height ==> self.shows(
                    i as u32,
                    j as u32,
                    lights, get_ray, hit, shade, draw, tint, weigh, plus, scale, root, quantise,
                    #[trigger] img.pixel(i, j),
                ),
    {
        let mut img = PixelBuffer::new(self.image_width, self.image_height);
        let mut j: u32 = self.image_height;
        while j > 0
            invariant
                j <= self.image_height,
                img.wf(),
                img.width == self.image_width,
                img.height == self.image_height,
                forall|a: u32, b: u32, c: i32, d: i32| call_requires(get_ray, (a, b, c, d)),
                forall|a: Ray| call_requires(hit, (a,)),
                forall|a: Ray, b: HitRecord| call_requires(shade, (a, b)),
                forall|a: Ray, b: HitRecord, c: ScatterRecord, d: bool| call_requires(draw, (a, b, c, d)),
                forall|a: Vector, b: Vector| call_requires(tint, (a, b)),
                forall|a: Vector, b: Vector, c: Scalar, d: Scalar, e: Vector|
                call_requires(weigh, (a, b, c, d, e)),
                forall|a: Vector, b: Vector| call_requires(plus, (a, b)),
                forall|a: Vector, b: Scalar| call_requires(scale, (a, b)),
                forall|a: Vector| call_requires(root, (a,)),
                forall|level: Scalar| call_requires(quantise, (level,)),
                forall|a: int, b: int|
                    0 <= a < self.image_width && j <= b < self.image_height ==> self.shows(
                        a as u32,
                        b as u32,
                        lights, get_ray, hit, shade, draw, tint, weigh, plus, scale, root, quantise,
                        #[trigger] img.pixel(a, b),
                    ),
            decreases j,
        {
            j = j - 1;
            let mut i: u32 = 0;
            while i < self.image_width
                invariant
                    i <= self.image_width,
                    j < self.image_height,
                    img.wf(),
                    img.width == self.image_width,
                    img.height == self.image_height,
                    forall|a: u32, b: u32, c: i32, d: i32| call_requires(get_ray, (a, b, c, d)),
                    forall|a: Ray| call_requires(hit, (a,)),
                    forall|a: Ray, b: HitRecord| call_requires(shade, (a, b)),
                    forall|a: Ray, b: HitRecord, c: ScatterRecord, d: bool| call_requires(draw, (a, b, c, d)),
                    forall|a: Vector, b: Vector| call_requires(tint, (a, b)),
                    forall|a: Vector, b: Vector, c: Scalar, d: Scalar, e: Vector|
                    call_requires(weigh, (a, b, c, d, e)),
                    forall|a: Vector, b: Vector| call_requires(plus, (a, b)),
                    forall|a: Vector, b: Scalar| call_requires(scale, (a, b)),
                    forall|a: Vector| call_requires(root, (a,)),
                    forall|level: Scalar| call_requires(quantise, (level,)),
                    forall|a: int, b: int|
                        0 <= a < self.image_width && j < b < self.image_height ==> self.shows(
                            a as u32,
                            b as u32,
                            lights, get_ray, hit, shade, draw, tint, weigh, plus, scale, root, quantise,
                            #[trigger] img.pixel(a, b),
                        ),
                    forall|a: int|
                        0 <= a < i ==> self.shows(
                            a as u32,
                            j,
                            lights, get_ray, hit, shade, draw, tint, weigh, plus, scale, root, quantise,
                            #[trigger] img.pixel(a, j as int),
                        ),
                decreases self.image_width - i,
            {
                let (color, roots) = self.pixel_color(i, j, lights, get_ray, hit, shade, draw, tint, weigh, plus, scale, root);
                Self::write_color(&mut img, i, j, &color, &roots, quantise);
                proof {
                    assert(self.shows(i, j, lights, get_ray, hit, shade, draw, tint, weigh, plus, scale, root, quantise, img.pixel(i as int, j as int)));
                }
                i = i + 1;
            }
        }
        img
    }
}

impl Default for Camera {
    /// The camera as it stands before anything is set.
    fn default() -> (r: Self)
        ensures
            r == Camera::standard(),
    {
        let z = Scalar::zero();
        let o = Vector::new(z, z, z);
        Camera {
            aspect_ratio: Scalar::from_bits(0x3FFC_71C7_1C71_C71C),
            image_width: 1920,
            image_height: 0,
            samples_per_pixel: 2500,
            pixel_samples_scale: z,
            center: o,
            pixel00_loc: o,
            pixel_delta_u: o,
            pixel_delta_v: o,
            max_depth: 50,
            vfov: Scalar::from_bits(0x4044_0000_0000_0000),
            lookfrom: Vector::new(
                Scalar::from_bits(0x4089_0000_0000_0000),
                Scalar::from_bits(0x407C_2000_0000_0000),
                Scalar::from_bits(0xC089_0000_0000_0000),
            ),
            lookat: Vector::new(
                Scalar::from_bits(0x4089_0000_0000_0000),
                Scalar::from_bits(0x407C_2000_0000_0000),
                z,
            ),
            vup: Vector::new(z, Scalar::one(), z),
            u: o,
            v: o,
            w: o,
            defocus_angle: z,
            focus_dist: Scalar::from_bits(0x4024_0000_0000_0000),
            defocus_disk_u: o,
            defocus_disk_v: o,
            background: o,
            sqrt_spp: 0,
            recip_sqrt_spp: z,
        }
    }
}

/// A place of the grid lies within the grid.
pub proof fn lemma_grid_place_bounds(a: int, b: int, n: int)
    requires
        0 <= a < n,
        0 <= b < n,
    ensures
        0 <= grid_place(a, b, n) < n * n,
{
    crate::pixel_buffer::lemma_place_is_within(a, b, n, n);
}

/// Two cells of the grid at one place are one cell.
pub proof fn lemma_grid_places_differ(a: int, b: int, c: int, d: int, n: int)
    requires
        0 <= a < n,
        0 <= c < n,
        0 <= b,
        0 <= d,
    ensures
        grid_place(a, b, n) == grid_place(c, d, n) ==> a == c && b == d,
{
    if a != c || b != d {
        crate::pixel_buffer::lemma_places_differ(a, b, c, d, n);
    }
}

/// A path is worth nothing where nothing on it gives off light: let the
/// background be black, let no surface give off light, and let a black
/// colour stay black when it is tinted or weighed. Then every path is worth
/// black, however deep it is followed.
pub proof fn lemma_unlit_paths_are_black<H: Fn(Ray) -> Option<HitRecord>, M: Fn(Ray, HitRecord) -> Shading, D: Fn(Ray, HitRecord, ScatterRecord, bool) -> Sampled, T: Fn(Vector, Vector) -> Vector, W: Fn(Vector, Vector, Scalar, Scalar, Vector) -> Vector>(
    cam: Camera,
    r: Ray,
    depth: u32,
    lights: usize,
    hit: &H,
    shade: &M,
    sample: &D,
    tint: &T,
    weigh: &W,
    out: Vector,
)
    requires
        cam.background == black(),
        forall|a: Ray, b: HitRecord, lit: Shading| #[trigger]
            call_ensures(shade, (a, b), lit) ==> lit.emitted == black(),
        forall|a: Vector, c: Vector| #[trigger] call_ensures(tint, (a, black()), c) ==> c == black(),
        forall|a: Vector, p: Scalar, q: Scalar, c: Vector| #[trigger]
            call_ensures(weigh, (a, black(), p, q, black()), c) ==> c == black(),
        cam.radiance(r, depth, lights, hit, shade, sample, tint, weigh, out),
    ensures
        out == black(),
    decreases depth,
{
    if depth > 0 {
        let (found, lit, s, inner): (Option<HitRecord>, Shading, Sampled, Vector) = choose|
            found: Option<HitRecord>,
            lit: Shading,
            s: Sampled,
            inner: Vector,
        | #[trigger]
            traced(found, lit, s, inner) && call_ensures(hit, (r,), found) && match found {
                None => out == cam.background,
                Some(rec) => call_ensures(shade, (r, rec), lit) && match lit.scatter {
                    None => out == lit.emitted,
                    Some(srec) => if srec.skip_pdf {
                        cam.radiance(
                            srec.skip_pdf_ray,
                            (depth - 1) as u32,
                            lights,
                            hit,
                            shade,
                            sample,
                            tint,
                            weigh,
                            inner,
                        ) && call_ensures(tint, (srec.attenuation, inner), out)
                    } else {
                        call_ensures(sample, (r, rec, srec, lights > 0), s) && cam.radiance(
                            s.scattered,
                            (depth - 1) as u32,
                            lights,
                            hit,
                            shade,
                            sample,
                            tint,
                            weigh,
                            inner,
                        ) && call_ensures(
                            weigh,
                            (srec.attenuation, inner, s.scattering_pdf, s.pdf, lit.emitted),
                            out,
                        )
                    },
                },
            };
        if let Some(rec) = found {
            if let Some(srec) = lit.scatter {
                if srec.skip_pdf {
                    lemma_unlit_paths_are_black(
                        cam,
                        srec.skip_pdf_ray,
                        (depth - 1) as u32,
                        lights,
                        hit,
                        shade,
                        sample,
                        tint,
                        weigh,
                        inner,
                    );
                } else {
                    lemma_unlit_paths_are_black(
                        cam,
                        s.scattered,
                        (depth - 1) as u32,
                        lights,
                        hit,
                        shade,
                        sample,
                        tint,
                        weigh,
                        inner,
                    );
                }
            }
        }
    }
}

/// Whether black stays black where colours are added, where a colour is
/// scaled and where a level is made a byte: black and black add up to black,
/// black scaled by whatever is black, and the level zero is the byte zero.
pub open spec fn keeps_black<A: Fn(Vector, Vector) -> Vector, S: Fn(Vector, Scalar) -> Vector, Q: Fn(Scalar) -> u8>(
    plus: &A,
    scale: &S,
    quantise: &Q,
) -> bool {
    &&& forall|c: Vector| #[trigger] call_ensures(plus, (black(), black()), c) ==> c == black()
    &&& forall|k: Scalar, c: Vector| #[trigger] call_ensures(scale, (black(), k), c) ==> c == black()
    &&& forall|b: u8| #[trigger] call_ensures(quantise, (Scalar { bits: 0 },), b) ==> b == 0
}

/// At depth zero every sum of sub-samples is black.
pub proof fn lemma_sums_stay_black<R: Fn(u32, u32, i32, i32) -> Ray, H: Fn(Ray) -> Option<HitRecord>, M: Fn(Ray, HitRecord) -> Shading, D: Fn(Ray, HitRecord, ScatterRecord, bool) -> Sampled, T: Fn(Vector, Vector) -> Vector, W: Fn(Vector, Vector, Scalar, Scalar, Vector) -> Vector, A: Fn(Vector, Vector) -> Vector>(
    cam: Camera,
    i: u32,
    j: u32,
    lights: usize,
    get_ray: &R,
    hit: &H,
    shade: &M,
    draw: &D,
    tint: &T,
    weigh: &W,
    plus: &A,
    samples: Seq<Vector>,
    sums: Seq<Vector>,
    k: int,
)
    requires
        cam.max_depth == 0,
        forall|c: Vector| #[trigger] call_ensures(plus, (black(), black()), c) ==> c == black(),
        cam.follows_paths(i, j, lights, get_ray, hit, shade, draw, tint, weigh, plus, samples, sums),
        0 <= k <= cam.side() * cam.side(),
    ensures
        sums[k] == black(),
    decreases k,
{
    if k > 0 {
        let n = cam.side();
        let g = k - 1;
        lemma_sums_stay_black(cam, i, j, lights, get_ray, hit, shade, draw, tint, weigh, plus, samples, sums, g);
        assert(n > 0) by (nonlinear_arith)
            requires
                0 < k <= n * n,
                0 <= n,
        ;
        let a = g % n;
        let b = g / n;
        vstd::arithmetic::div_mod::lemma_fundamental_div_mod(g, n);
        vstd::arithmetic::div_mod::lemma_mod_pos_bound(g, n);
        assert(0 <= b < n) by (nonlinear_arith)
            requires
                g == n * b + a,
                0 <= a < n,
                0 <= g < n * n,
                0 < n,
        ;
        assert(grid_place(a, b, n) == g) by (nonlinear_arith)
            requires
                g == n * b + a,
                grid_place(a, b, n) == b * n + a,
        ;
        assert(cam.path_worth(i, j, a, b, lights, get_ray, hit, shade, draw, tint, weigh, samples[g]));
        assert(samples[g] == black());
        assert(call_ensures(plus, (sums[g], samples[g]), sums[g + 1]));
    }
}

/// At depth zero a pixel is black, whatever the scene: let `max_depth` be
/// zero and let black stay black as [`keeps_black`] has it. Then the pixel
/// that a render shows at any place is `(0, 0, 0)`.
pub proof fn lemma_depth_zero_is_black<R: Fn(u32, u32, i32, i32) -> Ray, H: Fn(Ray) -> Option<HitRecord>, M: Fn(Ray, HitRecord) -> Shading, D: Fn(Ray, HitRecord, ScatterRecord, bool) -> Sampled, T: Fn(Vector, Vector) -> Vector, W: Fn(Vector, Vector, Scalar, Scalar, Vector) -> Vector, A: Fn(Vector, Vector) -> Vector, S: Fn(Vector, Scalar) -> Vector, X: Fn(Vector) -> Vector, Q: Fn(Scalar) -> u8>(
    cam: Camera,
    i: u32,
    j: u32,
    lights: usize,
    get_ray: &R,
    hit: &H,
    shade: &M,
    draw: &D,
    tint: &T,
    weigh: &W,
    plus: &A,
    scale: &S,
    root: &X,
    quantise: &Q,
    rgb: [u8; 3],
)
    requires
        cam.max_depth == 0,
        keeps_black(plus, scale, quantise),
        cam.shows(i, j, lights, get_ray, hit, shade, draw, tint, weigh, plus, scale, root, quantise, rgb),
    ensures
        rgb@[0] == 0,
        rgb@[1] == 0,
        rgb@[2] == 0,
{
    let (color, roots): (Vector, Vector) = choose|color: Vector, roots: Vector| #[trigger]
        cam.averaged(i, j, lights, get_ray, hit, shade, draw, tint, weigh, plus, scale, root, color, roots) && call_ensures(
            quantise,
            (Camera::toned(color.x, roots.x),),
            rgb@[0],
        ) && call_ensures(quantise, (Camera::toned(color.y, roots.y),), rgb@[1]) && call_ensures(
            quantise,
            (Camera::toned(color.z, roots.z),),
            rgb@[2],
        );
    let (samples, sums): (Seq<Vector>, Seq<Vector>) = choose|
        samples: Seq<Vector>,
        sums: Seq<Vector>,
    | #[trigger]
        cam.follows_paths(i, j, lights, get_ray, hit, shade, draw, tint, weigh, plus, samples, sums) && call_ensures(
            scale,
            (sums.last(), cam.pixel_samples_scale),
            color,
        ) && call_ensures(root, (color,), roots);
    let n = cam.side();
    assert(0 <= n * n) by (nonlinear_arith)
        requires
            0 <= n,
    ;
    lemma_sums_stay_black(cam, i, j, lights, get_ray, hit, shade, draw, tint, weigh, plus, samples, sums, n * n);
    assert(sums.last() == sums[n * n]);
    assert(color == black());
    assert(Camera::toned(color.x, roots.x) == (Scalar { bits: 0 }));
    assert(Camera::toned(color.y, roots.y) == (Scalar { bits: 0 }));
    assert(Camera::toned(color.z, roots.z) == (Scalar { bits: 0 }));
}

/// At depth zero a render is all black, whatever the scene: let `max_depth`
/// be zero, let black stay black as [`keeps_black`] has it, and let `img` be
/// what [`Camera::render`] returns. Then every pixel of `img` is
/// `(0, 0, 0)`.
pub proof fn lemma_render_at_depth_zero_is_black<R: Fn(u32, u32, i32, i32) -> Ray, H: Fn(Ray) -> Option<HitRecord>, M: Fn(Ray, HitRecord) -> Shading, D: Fn(Ray, HitRecord, ScatterRecord, bool) -> Sampled, T: Fn(Vector, Vector) -> Vector, W: Fn(Vector, Vector, Scalar, Scalar, Vector) -> Vector, A: Fn(Vector, Vector) -> Vector, S: Fn(Vector, Scalar) -> Vector, X: Fn(Vector) -> Vector, Q: Fn(Scalar) -> u8>(
    cam: Camera,
    lights: usize,
    get_ray: &R,
    hit: &H,
    shade: &M,
    draw: &D,
    tint: &T,
    weigh: &W,
    plus: &A,
    scale: &S,
    root: &X,
    quantise: &Q,
    img: PixelBuffer,
)
    requires
        cam.max_depth == 0,
        keeps_black(plus, scale, quantise),
        forall|i: int, j: int|
            0 <= i < cam.image_width && 0 <= j < cam.image_height ==> cam.shows(
                i as u32,
                j as u32,
                lights, get_ray, hit, shade, draw, tint, weigh, plus, scale, root, quantise,
                #[trigger] img.pixel(i, j),
            ),
    ensures
        forall|i: int, j: int|
            0 <= i < cam.image_width && 0 <= j < cam.image_height ==> (#[trigger] img.pixel(i, j))@
                =~= seq![0u8, 0u8, 0u8],
{
    assert forall|i: int, j: int|
        0 <= i < cam.image_width && 0 <= j < cam.image_height implies (#[trigger] img.pixel(i, j))@
        =~= seq![0u8, 0u8, 0u8] by {
        lemma_depth_zero_is_black(cam, i as u32, j as u32, lights, get_ray, hit, shade, draw, tint, weigh, plus, scale, root, quantise, img.pixel(i, j));
    }
}

} // verus!
