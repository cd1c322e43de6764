use rand::Rng;
use raytracer::camera::{Camera, Sampled, Shading};
use raytracer::hittable::HitRecord;
use raytracer::material::{
    Dielectric, DiffuseLight, Isotropic, Lambertian, Metal, ScatterRecord, SurfacePdf,
};
use raytracer::onb::Onb;
use raytracer::pdf::{CosinePdf, MixturePdf, SpherePdf};
use raytracer::pixel_buffer::PixelBuffer;
use raytracer::ray::Ray;
use raytracer::scalar::Scalar;
use raytracer::vec3::Vector;

fn s(x: f64) -> Scalar {
    Scalar::from_bits(x.to_bits())
}

fn f(x: Scalar) -> f64 {
    f64::from_bits(x.to_bits())
}

fn v(x: f64, y: f64, z: f64) -> Vector {
    Vector::new(s(x), s(y), s(z))
}

fn a3(p: Vector) -> [f64; 3] {
    [f(p.x), f(p.y), f(p.z)]
}

fn ray(o: [f64; 3], d: [f64; 3]) -> Ray {
    Ray::new(v(o[0], o[1], o[2]), v(d[0], d[1], d[2]), s(0.0))
}

fn rec_at(t: f64, front: bool) -> HitRecord {
    let mut r = HitRecord::new(v(0.0, 0.0, -t), v(0.0, 0.0, 1.0), s(t), front);
    r.mat = Some(0);
    r
}

fn tint(a: Vector, b: Vector) -> Vector {
    v(f(a.x) * f(b.x), f(a.y) * f(b.y), f(a.z) * f(b.z))
}

fn weigh(att: Vector, col: Vector, spdf: Scalar, pdf: Scalar, emitted: Vector) -> Vector {
    v(
        f(att.x) * f(col.x) * f(spdf) / f(pdf) + f(emitted.x),
        f(att.y) * f(col.y) * f(spdf) / f(pdf) + f(emitted.y),
        f(att.z) * f(col.z) * f(spdf) / f(pdf) + f(emitted.z),
    )
}

fn plus(a: Vector, b: Vector) -> Vector {
    v(f(a.x) + f(b.x), f(a.y) + f(b.y), f(a.z) + f(b.z))
}

fn scale(a: Vector, k: Scalar) -> Vector {
    v(f(a.x) * f(k), f(a.y) * f(k), f(a.z) * f(k))
}

fn root(a: Vector) -> Vector {
    v(f(a.x).sqrt(), f(a.y).sqrt(), f(a.z).sqrt())
}

fn quantise(level: Scalar) -> u8 {
    (f(level) * 255.99).round() as u8
}

fn frame() -> Onb {
    Onb::new(v(1.0, 0.0, 0.0), v(0.0, 1.0, 0.0), v(0.0, 0.0, 1.0))
}

#[test]
fn metal_holds_its_blur_within_zero_and_one() {
    assert_eq!(f(Metal::new(v(0.7, 0.6, 0.5), s(0.3)).fuzz), 0.3);
    assert_eq!(f(Metal::new(v(0.7, 0.6, 0.5), s(3.0)).fuzz), 1.0);
    assert_eq!(f(Metal::new(v(0.7, 0.6, 0.5), s(-1.0)).fuzz), 0.0);
    assert_eq!(f(Metal::new(v(0.7, 0.6, 0.5), s(1.0)).fuzz), 1.0);
    assert_eq!(a3(Metal::new(v(0.7, 0.6, 0.5), s(0.0)).albedo), [0.7, 0.6, 0.5]);
}

#[test]
fn metal_fixes_the_outgoing_ray() {
    let m = Metal::new(v(0.7, 0.6, 0.5), s(0.0));
    let r_in = Ray::new(v(0.0, 0.0, 0.0), v(0.0, 0.0, -1.0), s(0.75));
    let srec = m.scatter(&r_in, &rec_at(2.0, true), v(0.0, 0.0, 1.0));
    assert!(srec.skip_pdf);
    assert!(srec.pdf_ptr.is_none());
    assert_eq!(a3(srec.attenuation), [0.7, 0.6, 0.5]);
    assert_eq!(a3(srec.skip_pdf_ray.origin), [0.0, 0.0, -2.0]);
    assert_eq!(a3(srec.skip_pdf_ray.direction), [0.0, 0.0, 1.0]);
    assert_eq!(f(srec.skip_pdf_ray.time), 0.75);
}

#[test]
fn glass_mirrors_when_it_must_or_when_chance_has_it() {
    assert!(Dielectric::reflects(s(1.2), s(0.0), s(0.99)));
    assert!(!Dielectric::reflects(s(1.0), s(0.0), s(0.5)));
    assert!(Dielectric::reflects(s(0.3), s(0.6), s(0.5)));
    assert!(!Dielectric::reflects(s(0.3), s(0.4), s(0.5)));
    assert!(!Dielectric::reflects(s(0.3), s(0.5), s(0.5)));
    assert!(!Dielectric::reflects(s(f64::NAN), s(0.4), s(0.5)));
    let g = Dielectric::new(s(1.5));
    assert_eq!(f(g.refraction_index), 1.5);
    let r_in = Ray::new(v(0.0, 0.0, 0.0), v(0.0, 0.0, -1.0), s(0.5));
    let hit = rec_at(1.0, true);
    let up = v(0.0, 1.0, 0.0);
    let down = v(0.0, -1.0, 0.0);
    let srec = g.scatter(&r_in, &hit, s(1.2), s(0.0), s(0.9), up, down);
    assert!(srec.skip_pdf);
    assert!(srec.pdf_ptr.is_none());
    assert_eq!(a3(srec.attenuation), [1.0, 1.0, 1.0]);
    assert_eq!(a3(srec.skip_pdf_ray.direction), [0.0, 1.0, 0.0]);
    assert_eq!(a3(srec.skip_pdf_ray.origin), [0.0, 0.0, -1.0]);
    assert_eq!(f(srec.skip_pdf_ray.time), 0.5);
    let srec = g.scatter(&r_in, &hit, s(0.2), s(0.1), s(0.9), up, down);
    assert_eq!(a3(srec.skip_pdf_ray.direction), [0.0, -1.0, 0.0]);
}

#[test]
fn light_shines_from_its_front_only() {
    let l = DiffuseLight::new(3);
    assert_eq!(l.tex, 3);
    assert_eq!(a3(l.emitted(&rec_at(1.0, true), v(4.0, 5.0, 6.0))), [4.0, 5.0, 6.0]);
    assert_eq!(a3(l.emitted(&rec_at(1.0, false), v(4.0, 5.0, 6.0))), [0.0, 0.0, 0.0]);
}

#[test]
fn matt_and_fog_hand_on_a_density() {
    let l = Lambertian::arc_new(2);
    assert_eq!(l.tex, 2);
    let srec = l.scatter(v(0.1, 0.2, 0.3), CosinePdf::new(frame()));
    assert!(!srec.skip_pdf);
    assert!(matches!(srec.pdf_ptr, Some(SurfacePdf::Cosine(_))));
    assert_eq!(a3(srec.attenuation), [0.1, 0.2, 0.3]);
    assert_eq!(f(l.scattering_pdf()), 1.0 / (4.0 * std::f64::consts::PI));
    let i = Isotropic::new(5);
    assert_eq!(i.tex, 5);
    let srec = i.scatter(v(0.4, 0.5, 0.6));
    assert!(!srec.skip_pdf);
    assert!(matches!(srec.pdf_ptr, Some(SurfacePdf::Sphere(_))));
    assert_eq!(a3(srec.attenuation), [0.4, 0.5, 0.6]);
}

#[test]
fn densities_take_the_values_of_their_formulas() {
    assert_eq!(f(SpherePdf {}.value(&v(1.0, 2.0, 3.0))), 1.0 / (4.0 * std::f64::consts::PI));
    let c = CosinePdf::new(frame());
    assert_eq!(f(c.value(s(0.25))), 0.25);
    assert_eq!(f(c.value(s(-0.25))), 0.0);
    assert_eq!(f(c.value(s(0.0))), 0.0);
    assert_eq!(f(c.value(s(f64::NAN))), 0.0);
    assert_eq!(a3(c.uvw.axis[2]), [0.0, 0.0, 1.0]);
    let m = MixturePdf::new(7, 9);
    assert_eq!(m.p, [7, 9]);
    assert_eq!(m.generate(s(0.0)), 7);
    assert_eq!(m.generate(s(0.49999)), 7);
    assert_eq!(m.generate(s(0.5)), 9);
    assert_eq!(m.generate(s(0.99)), 9);
}

#[test]
fn frame_starts_from_the_axis_that_is_not_too_close() {
    assert_eq!(a3(Onb::helper_axis(&v(0.95, 0.1, 0.0))), [0.0, 1.0, 0.0]);
    assert_eq!(a3(Onb::helper_axis(&v(-0.95, 0.1, 0.0))), [0.0, 1.0, 0.0]);
    assert_eq!(a3(Onb::helper_axis(&v(0.9, 0.1, 0.0))), [1.0, 0.0, 0.0]);
    assert_eq!(a3(Onb::helper_axis(&v(0.0, 1.0, 0.0))), [1.0, 0.0, 0.0]);
    let o = frame();
    assert_eq!(a3(o.axis[0]), [1.0, 0.0, 0.0]);
    assert_eq!(a3(o.axis[1]), [0.0, 1.0, 0.0]);
}

#[test]
fn grid_side_is_the_root_rounded_up() {
    assert_eq!(Camera::grid_side(0), 0);
    assert_eq!(Camera::grid_side(1), 1);
    assert_eq!(Camera::grid_side(2), 2);
    assert_eq!(Camera::grid_side(4), 2);
    assert_eq!(Camera::grid_side(5), 3);
    assert_eq!(Camera::grid_side(9), 3);
    assert_eq!(Camera::grid_side(10), 4);
    assert_eq!(Camera::grid_side(100), 10);
    assert_eq!(Camera::grid_side(2500), 50);
    assert_eq!(Camera::grid_side(2501), 51);
    assert_eq!(Camera::grid_side(u32::MAX), 65536);
    for n in 1..5000u32 {
        assert_eq!(Camera::grid_side(n), (n as f64).sqrt().ceil() as i32);
    }
}

#[test]
fn camera_starts_from_the_standard_settings() {
    let c = Camera::default();
    assert_eq!(f(c.aspect_ratio), 16.0 / 9.0);
    assert_eq!(c.image_width, 1920);
    assert_eq!(c.image_height, 0);
    assert_eq!(c.samples_per_pixel, 2500);
    assert_eq!(c.max_depth, 50);
    assert_eq!(f(c.vfov), 40.0);
    assert_eq!(a3(c.lookfrom), [800.0, 450.0, -800.0]);
    assert_eq!(a3(c.lookat), [800.0, 450.0, 0.0]);
    assert_eq!(a3(c.vup), [0.0, 1.0, 0.0]);
    assert_eq!(f(c.defocus_angle), 0.0);
    assert_eq!(f(c.focus_dist), 10.0);
    assert_eq!(a3(c.background), [0.0, 0.0, 0.0]);
    assert_eq!(c.sqrt_spp, 0);
}

#[test]
fn initialise_sets_the_height_and_the_grid() {
    let mut c = Camera::default();
    c.image_width = 400;
    c.initialise((400.0 / f(c.aspect_ratio)).round() as u32);
    assert_eq!(c.image_height, 225);
    assert_eq!(c.sqrt_spp, 50);
    assert_eq!(c.image_width, 400);
    c.samples_per_pixel = 10;
    c.initialise(0);
    assert_eq!(c.image_height, 1);
    assert_eq!(c.sqrt_spp, 4);
}

fn two_spheres(r: Ray) -> Option<HitRecord> {
    let mut best: Option<HitRecord> = None;
    for (c, rad, mat) in [([0.0, -100.5, -1.0], 100.0, 0usize), ([0.0, 0.0, -1.0], 0.5, 1usize)] {
        let o = a3(r.origin);
        let d = a3(r.direction);
        let oc = [c[0] - o[0], c[1] - o[1], c[2] - o[2]];
        let a = d[0] * d[0] + d[1] * d[1] + d[2] * d[2];
        let h = d[0] * oc[0] + d[1] * oc[1] + d[2] * oc[2];
        let cc = oc[0] * oc[0] + oc[1] * oc[1] + oc[2] * oc[2] - rad * rad;
        let disc = h * h - a * cc;
        let sq = disc.sqrt();
        let far = best.map(|b| f(b.t)).unwrap_or(f64::INFINITY);
        let w = raytracer::interval::Interval::new(s(0.001), s(far));
        if let Some(t) = raytracer::sphere::Sphere::hit(s(disc), s((h - sq) / a), s((h + sq) / a), &w) {
            let tt = f(t);
            let p = [o[0] + tt * d[0], o[1] + tt * d[1], o[2] + tt * d[2]];
            let n = [(p[0] - c[0]) / rad, (p[1] - c[1]) / rad, (p[2] - c[2]) / rad];
            let mut rec = HitRecord::new(v(p[0], p[1], p[2]), v(0.0, 0.0, 0.0), t, false);
            rec.mat = Some(mat);
            rec.set_face_normal(s(d[0] * n[0] + d[1] * n[1] + d[2] * n[2]), &v(n[0], n[1], n[2]));
            best = Some(rec);
        }
    }
    best
}

fn matt(_: Ray, _: HitRecord) -> Shading {
    Shading {
        emitted: v(0.0, 0.0, 0.0),
        scatter: Some(Lambertian::arc_new(0).scatter(v(0.5, 0.5, 0.5), CosinePdf::new(frame()))),
    }
}

fn bounce_up(r: Ray, rec: HitRecord, _: ScatterRecord, _: bool) -> Sampled {
    let n = a3(rec.normal);
    Sampled {
        scattered: Ray::new(rec.p, v(n[0] + 0.1, n[1] + 0.2, n[2] + 0.05), r.time),
        pdf: s(0.3),
        scattering_pdf: s(1.0 / (4.0 * std::f64::consts::PI)),
    }
}

#[test]
fn depth_zero_is_black_whatever_the_scene() {
    let mut cam = Camera::default();
    cam.background = v(0.7, 0.8, 1.0);
    for d in [[0.0, 0.0, -1.0], [0.0, -1.0, -1.0], [0.0, 1.0, 0.0]] {
        let out = cam.ray_color(&ray([0.0; 3], d), 0, 1, &two_spheres, &matt, &bounce_up, &tint, &weigh);
        assert_eq!(a3(out), [0.0, 0.0, 0.0]);
    }
    cam.max_depth = 0;
    cam.image_width = 8;
    cam.image_height = 4;
    cam.sqrt_spp = 3;
    cam.pixel_samples_scale = s(1.0 / 9.0);
    let through = |i: u32, j: u32, s_i: i32, s_j: i32| {
        ray([0.0; 3], [(i as f64 + s_i as f64 / 3.0) / 8.0 - 0.5, 0.5 - (j as f64 + s_j as f64 / 3.0) / 4.0, -1.0])
    };
    let img = cam.render(1, &through, &two_spheres, &matt, &bounce_up, &tint, &weigh, &plus, &scale, &root, &quantise);
    assert_eq!((img.width, img.height, img.data.len()), (8, 4, 32));
    assert!(img.data.iter().all(|p| *p == [0, 0, 0]));
    cam.max_depth = 3;
    let lit = cam.render(1, &through, &two_spheres, &matt, &bounce_up, &tint, &weigh, &plus, &scale, &root, &quantise);
    assert!(lit.data.iter().any(|p| *p != [0, 0, 0]));
}

#[test]
fn a_miss_is_worth_the_background() {
    let mut cam = Camera::default();
    cam.background = v(0.7, 0.8, 1.0);
    let out = cam.ray_color(&ray([0.0; 3], [0.0, 1.0, 0.0]), 5, 1, &two_spheres, &matt, &bounce_up, &tint, &weigh);
    assert_eq!(a3(out), [0.7, 0.8, 1.0]);
}

#[test]
fn a_surface_that_does_not_scatter_is_worth_what_it_gives_off() {
    let cam = Camera::default();
    let lamp = |_: Ray, rec: HitRecord| Shading {
        emitted: DiffuseLight::new(0).emitted(&rec, v(4.0, 4.0, 4.0)),
        scatter: None,
    };
    let out = cam.ray_color(&ray([0.0; 3], [0.0, 0.0, -1.0]), 5, 1, &two_spheres, &lamp, &bounce_up, &tint, &weigh);
    assert_eq!(a3(out), [4.0, 4.0, 4.0]);
}

#[test]
fn a_matt_bounce_is_weighed_by_both_densities() {
    let mut cam = Camera::default();
    cam.background = v(1.0, 2.0, 4.0);
    let out = cam.ray_color(&ray([0.0; 3], [0.0, 0.0, -1.0]), 2, 1, &two_spheres, &matt, &bounce_up, &tint, &weigh);
    let k = 0.5 * (1.0 / (4.0 * std::f64::consts::PI)) / 0.3;
    assert_eq!(a3(out), [0.5 * 1.0 * (1.0 / (4.0 * std::f64::consts::PI)) / 0.3, 0.5 * 2.0 * (1.0 / (4.0 * std::f64::consts::PI)) / 0.3, 0.5 * 4.0 * (1.0 / (4.0 * std::f64::consts::PI)) / 0.3]);
    assert!((f(out.x) - k).abs() < 1e-15);
    let out = cam.ray_color(&ray([0.0; 3], [0.0, 0.0, -1.0]), 1, 1, &two_spheres, &matt, &bounce_up, &tint, &weigh);
    assert_eq!(a3(out), [0.0, 0.0, 0.0]);
}

#[test]
fn a_mirror_bounce_is_tinted_and_adds_no_light_of_its_own() {
    let mut cam = Camera::default();
    cam.background = v(1.0, 2.0, 4.0);
    let mirror = |r: Ray, rec: HitRecord| Shading {
        emitted: v(9.0, 9.0, 9.0),
        scatter: Some(Metal::new(v(0.5, 0.25, 1.0), s(0.0)).scatter(&r, &rec, v(0.0, 1.0, 0.0))),
    };
    let out = cam.ray_color(&ray([0.0; 3], [0.0, 0.0, -1.0]), 3, 1, &two_spheres, &mirror, &bounce_up, &tint, &weigh);
    assert_eq!(a3(out), [0.5, 0.5, 4.0]);
}

#[test]
fn a_closed_box_without_reach_of_the_light_stays_black() {
    let cam = Camera::default();
    let walls = |r: Ray| {
        let o = a3(r.origin);
        let d = a3(r.direction);
        let mut best: Option<HitRecord> = None;
        for axis in 0..3 {
            for side in [0.0, 555.0] {
                let denom = d[axis];
                let t = (side - o[axis]) / denom;
                let p = [o[0] + t * d[0], o[1] + t * d[1], o[2] + t * d[2]];
                let (a, b) = ((axis + 1) % 3, (axis + 2) % 3);
                let far = best.map(|h| f(h.t)).unwrap_or(f64::INFINITY);
                let mut n = [0.0; 3];
                n[axis] = 1.0;
                let q = raytracer::quad::Quad::new(
                    v(0.0, 0.0, 0.0),
                    v(0.0, 0.0, 0.0),
                    v(0.0, 0.0, 0.0),
                    v(0.0, 0.0, 0.0),
                    v(n[0], n[1], n[2]),
                    s(side),
                    0,
                    &raytracer::aabb::AABB::default(),
                    &raytracer::aabb::AABB::default(),
                );
                let w = raytracer::interval::Interval::new(s(0.001), s(far));
                if let Some(h) = q.hit(s(denom), s(t), v(p[0], p[1], p[2]), s(p[a] / 555.0), s(p[b] / 555.0), &w) {
                    best = Some(h);
                }
            }
        }
        best
    };
    let inward = |r: Ray, rec: HitRecord, _: ScatterRecord, _: bool| {
        let p = a3(rec.p);
        Sampled {
            scattered: Ray::new(rec.p, v(277.0 - p[0] + 40.0, 277.0 - p[1] - 90.0, 277.0 - p[2] + 10.0), r.time),
            pdf: s(0.2),
            scattering_pdf: s(1.0 / (4.0 * std::f64::consts::PI)),
        }
    };
    for depth in [1u32, 2, 5, 50] {
        for d in [[0.3, 0.2, 1.0], [-1.0, 0.1, 0.4], [0.0, -1.0, 0.0]] {
            let out = cam.ray_color(&ray([277.0, 277.0, 277.0], d), depth, 1, &walls, &matt, &inward, &tint, &weigh);
            assert_eq!(a3(out), [0.0, 0.0, 0.0]);
            assert!(f(out.x).is_sign_positive());
        }
    }
}

#[test]
fn sub_samples_are_gathered_row_by_row() {
    let mut cam = Camera::default();
    cam.sqrt_spp = 3;
    let order = std::cell::RefCell::new(Vec::new());
    let sample = |i: u32, j: u32, s_i: i32, s_j: i32| {
        order.borrow_mut().push((i, j, s_i, s_j));
        v(1.0, s_i as f64, s_j as f64)
    };
    let plus = |a: Vector, b: Vector| v(f(a.x) + f(b.x), f(a.y) + f(b.y), f(a.z) + f(b.z));
    let out = cam.accumulate(4, 7, &sample, &plus);
    assert_eq!(a3(out), [9.0, 9.0, 9.0]);
    let want: Vec<(u32, u32, i32, i32)> =
        (0..3).flat_map(|s_j| (0..3).map(move |s_i| (4, 7, s_i, s_j))).collect();
    assert_eq!(*order.borrow(), want);
    cam.sqrt_spp = 0;
    assert_eq!(a3(cam.accumulate(0, 0, &sample, &plus)), [0.0, 0.0, 0.0]);
    cam.sqrt_spp = -4;
    assert_eq!(a3(cam.accumulate(0, 0, &sample, &plus)), [0.0, 0.0, 0.0]);
}

#[test]
fn tone_corrects_and_holds_the_level() {
    assert_eq!(f(Camera::linear_to_gamma(s(0.25), s(0.5))), 0.5);
    assert_eq!(f(Camera::linear_to_gamma(s(0.0), s(0.0))), 0.0);
    assert_eq!(f(Camera::linear_to_gamma(s(-4.0), s(f64::NAN))), 0.0);
    assert_eq!(f(Camera::tone(s(0.25), s(0.5))), 0.5);
    assert_eq!(f(Camera::tone(s(4.0), s(2.0))), 0.999);
    assert_eq!(f(Camera::tone(s(-1.0), s(f64::NAN))), 0.0);
    assert_eq!(f(Camera::tone(s(f64::NAN), s(f64::NAN))), 0.0);
    assert_eq!(f(Camera::tone(s(0.0), s(0.0))), 0.0);
    assert_eq!(f(Camera::tone(s(f64::INFINITY), s(f64::INFINITY))), 0.999);
}

#[test]
fn write_color_sets_one_pixel() {
    let mut img = PixelBuffer::new(3, 2);
    let q = |x: Scalar| (f(x) * 255.99).round() as u8;
    let c = v(0.25, 4.0, f64::NAN);
    let roots = v(0.5, 2.0, f64::NAN);
    Camera::write_color(&mut img, 2, 1, &c, &roots, &q);
    assert_eq!(img.get_pixel(2, 1), [128, 255, 0]);
    assert_eq!(img.get_pixel(1, 1), [0, 0, 0]);
    assert_eq!(img.get_pixel(2, 0), [0, 0, 0]);
    assert_eq!(img.data[5], [128, 255, 0]);
}

#[test]
fn pixel_buffer_keeps_each_pixel_apart() {
    let mut img = PixelBuffer::new(4, 3);
    assert_eq!((img.width, img.height, img.data.len()), (4, 3, 12));
    for j in 0..3u32 {
        for i in 0..4u32 {
            img.put_pixel(i, j, [i as u8, j as u8, (10 * j + i) as u8]);
        }
    }
    for j in 0..3u32 {
        for i in 0..4u32 {
            assert_eq!(img.get_pixel(i, j), [i as u8, j as u8, (10 * j + i) as u8]);
            assert_eq!(img.data[(j * 4 + i) as usize], [i as u8, j as u8, (10 * j + i) as u8]);
        }
    }
    let none = PixelBuffer::new(0, 5);
    assert_eq!(none.data.len(), 0);
}

fn seen_from(r: Ray) -> Option<HitRecord> {
    Some(HitRecord::new(r.direction, v(0.0, 0.0, 1.0), s(1.0), true))
}

fn glowing(_: Ray, rec: HitRecord) -> Shading {
    Shading { emitted: rec.p, scatter: None }
}

#[test]
fn render_fills_every_pixel_from_the_last_row_up() {
    let mut cam = Camera::default();
    cam.image_width = 3;
    cam.image_height = 2;
    cam.max_depth = 2;
    cam.sqrt_spp = 1;
    cam.pixel_samples_scale = s(1.0);
    let order = std::cell::RefCell::new(Vec::new());
    let through = |i: u32, j: u32, s_i: i32, s_j: i32| {
        order.borrow_mut().push((i, j, s_i, s_j));
        ray([0.0; 3], [i as f64 / 4.0, j as f64 / 4.0, 0.0625])
    };
    let img = cam.render(0, &through, &seen_from, &glowing, &bounce_up, &tint, &weigh, &plus, &scale, &root, &quantise);
    assert_eq!(
        *order.borrow(),
        vec![(0, 1, 0, 0), (1, 1, 0, 0), (2, 1, 0, 0), (0, 0, 0, 0), (1, 0, 0, 0), (2, 0, 0, 0)]
    );
    assert_eq!((img.width, img.height), (3, 2));
    for j in 0..2u32 {
        for i in 0..3u32 {
            let want = |x: f64| (x.sqrt().min(0.999) * 255.99).round() as u8;
            assert_eq!(img.get_pixel(i, j), [want(i as f64 / 4.0), want(j as f64 / 4.0), want(0.0625)]);
        }
    }
    assert_eq!(img.get_pixel(1, 1), [128, 128, 64]);
}

#[test]
fn a_pixel_is_the_scaled_sum_of_its_sub_samples() {
    let mut cam = Camera::default();
    cam.max_depth = 1;
    cam.sqrt_spp = 2;
    cam.pixel_samples_scale = s(0.25);
    let through = |i: u32, j: u32, s_i: i32, s_j: i32| {
        ray([0.0; 3], [(i + j) as f64, s_i as f64, s_j as f64 * 4.0])
    };
    let (color, roots) =
        cam.pixel_color(5, 7, 0, &through, &seen_from, &glowing, &bounce_up, &tint, &weigh, &plus, &scale, &root);
    assert_eq!(a3(color), [12.0, 0.5, 2.0]);
    assert_eq!(a3(roots), [12f64.sqrt(), 0.5f64.sqrt(), 2f64.sqrt()]);
    cam.max_depth = 0;
    let (color, roots) =
        cam.pixel_color(5, 7, 0, &through, &seen_from, &glowing, &bounce_up, &tint, &weigh, &plus, &scale, &root);
    assert_eq!(a3(color), [0.0, 0.0, 0.0]);
    assert_eq!(a3(roots), [0.0, 0.0, 0.0]);
    cam.sqrt_spp = 0;
    cam.max_depth = 5;
    let (color, _) =
        cam.pixel_color(5, 7, 0, &through, &seen_from, &glowing, &bounce_up, &tint, &weigh, &plus, &scale, &root);
    assert_eq!(a3(color), [0.0, 0.0, 0.0]);
}

#[test]
fn rays_start_at_the_centre_while_the_lens_is_shut() {
    let mut cam = Camera::default();
    assert!(cam.starts_at_center());
    cam.defocus_angle = s(-1.0);
    assert!(cam.starts_at_center());
    cam.defocus_angle = s(0.6);
    assert!(!cam.starts_at_center());
    cam.defocus_angle = s(f64::NAN);
    assert!(!cam.starts_at_center());
}

#[test]
fn glass_inverts_its_index_for_a_ray_that_enters() {
    let g = Dielectric::new(s(1.5));
    assert_eq!(f(g.refraction_ratio(true, s(1.0 / 1.5))), 1.0 / 1.5);
    assert_eq!(f(g.refraction_ratio(false, s(1.0 / 1.5))), 1.5);
}

#[test]
fn the_sampler_is_told_whether_there_are_lights_to_aim_at() {
    let cam = Camera::default();
    let told = std::cell::RefCell::new(Vec::new());
    let noting = |r: Ray, rec: HitRecord, srec: ScatterRecord, aim: bool| {
        told.borrow_mut().push(aim);
        bounce_up(r, rec, srec, aim)
    };
    cam.ray_color(&ray([0.0; 3], [0.0, 0.0, -1.0]), 2, 0, &two_spheres, &matt, &noting, &tint, &weigh);
    assert_eq!(*told.borrow(), vec![false]);
    told.borrow_mut().clear();
    cam.ray_color(&ray([0.0; 3], [0.0, 0.0, -1.0]), 2, 3, &two_spheres, &matt, &noting, &tint, &weigh);
    assert_eq!(*told.borrow(), vec![true]);
}

fn cross3(a: [f64; 3], b: [f64; 3]) -> [f64; 3] {
    [a[1] * b[2] - a[2] * b[1], a[2] * b[0] - a[0] * b[2], a[0] * b[1] - a[1] * b[0]]
}

fn unit3(a: [f64; 3]) -> [f64; 3] {
    let l = (a[0] * a[0] + a[1] * a[1] + a[2] * a[2]).sqrt();
    [a[0] / l, a[1] / l, a[2] / l]
}

fn frame_about(w: [f64; 3]) -> Onb {
    let unit_w = unit3(w);
    let a = a3(Onb::helper_axis(&v(unit_w[0], unit_w[1], unit_w[2])));
    let vv = unit3(cross3(unit_w, a));
    let uu = cross3(unit_w, vv);
    Onb::new(v(uu[0], uu[1], uu[2]), v(vv[0], vv[1], vv[2]), v(unit_w[0], unit_w[1], unit_w[2]))
}

#[test]
fn cosine_density_adds_up_to_one_and_draws_into_its_own_hemisphere() {
    let mut rng = rand::thread_rng();
    for w in [[0.0, 0.0, 1.0], [1.0, 0.0, 0.0], [0.95, 0.1, -0.2], [-3.0, 2.0, 5.0]] {
        let uvw = frame_about(w);
        let axes = [a3(uvw.axis[0]), a3(uvw.axis[1]), a3(uvw.axis[2])];
        for i in 0..3 {
            for j in 0..3 {
                let d: f64 = (0..3).map(|k| axes[i][k] * axes[j][k]).sum();
                assert!((d - if i == j { 1.0 } else { 0.0 }).abs() < 1e-12);
            }
        }
        let pdf = CosinePdf::new(uvw);
        let n = 200000;
        let mut sum = 0.0;
        for _ in 0..n {
            let z: f64 = rng.gen_range(-1.0..1.0);
            let phi: f64 = rng.gen_range(0.0..2.0 * std::f64::consts::PI);
            let r = (1.0 - z * z).sqrt();
            let d = [r * phi.cos(), r * phi.sin(), z];
            let cosine: f64 = (0..3).map(|k| d[k] * axes[2][k]).sum();
            sum += f(pdf.value(s(cosine / std::f64::consts::PI)));
        }
        let integral = sum / n as f64 * 4.0 * std::f64::consts::PI;
        assert!((integral - 1.0).abs() < 0.02, "{integral}");
        for _ in 0..2000 {
            let r1: f64 = rng.gen_range(0.0..1.0);
            let r2: f64 = rng.gen_range(0.0..1.0);
            let phi = 2.0 * std::f64::consts::PI * r1;
            let local = [phi.cos() * r2.sqrt(), phi.sin() * r2.sqrt(), (1.0 - r2).sqrt()];
            let d: Vec<f64> = (0..3)
                .map(|k| local[0] * axes[0][k] + local[1] * axes[1][k] + local[2] * axes[2][k])
                .collect();
            let cosine: f64 = (0..3).map(|k| d[k] * axes[2][k]).sum();
            assert!(cosine >= 0.0);
            assert!(f(pdf.value(s(cosine / std::f64::consts::PI))) >= 0.0);
        }
    }
}
