use rand::Rng;
use raytracer::aabb::AABB;
use raytracer::constant_medium::{ConstantMedium, Flight};
use raytracer::hittable::{HitRecord, RotateY, Translate};
use raytracer::interval::Interval;
use raytracer::quad::Quad;
use raytracer::scalar::Scalar;
use raytracer::sphere::Sphere;
use raytracer::triangle::Triangle;
use raytracer::vec3::Vector;

fn s(x: f64) -> Scalar {
    Scalar::from_bits(x.to_bits())
}

fn f(x: Scalar) -> f64 {
    f64::from_bits(x.to_bits())
}

fn v(x: f64, y: f64, z: f64) -> Vector {
    Vector::new(s(x), s(y), s(z))
}

fn a3(p: Vector) -> [f64; 3] {
    [f(p.x), f(p.y), f(p.z)]
}

fn dot(a: [f64; 3], b: [f64; 3]) -> f64 {
    a[0] * b[0] + a[1] * b[1] + a[2] * b[2]
}

fn cross(a: [f64; 3], b: [f64; 3]) -> [f64; 3] {
    [a[1] * b[2] - a[2] * b[1], a[2] * b[0] - a[0] * b[2], a[0] * b[1] - a[1] * b[0]]
}

fn sub(a: [f64; 3], b: [f64; 3]) -> [f64; 3] {
    [a[0] - b[0], a[1] - b[1], a[2] - b[2]]
}

fn plus(a: [f64; 3], b: [f64; 3]) -> [f64; 3] {
    [a[0] + b[0], a[1] + b[1], a[2] + b[2]]
}

fn scale(a: [f64; 3], k: f64) -> [f64; 3] {
    [a[0] * k, a[1] * k, a[2] * k]
}

fn vv(a: [f64; 3]) -> Vector {
    v(a[0], a[1], a[2])
}

fn sphere_roots(c: [f64; 3], r: f64, o: [f64; 3], d: [f64; 3]) -> (f64, f64, f64) {
    let oc = sub(c, o);
    let a = dot(d, d);
    let h = dot(d, oc);
    let cc = dot(oc, oc) - r * r;
    let disc = h * h - a * cc;
    let sq = disc.sqrt();
    (disc, (h - sq) / a, (h + sq) / a)
}

fn window(a: f64, b: f64) -> Interval {
    Interval::new(s(a), s(b))
}

fn size(i: Interval) -> Scalar {
    s(f(i.max) - f(i.min))
}

fn expand(i: Interval, delta: Scalar) -> Interval {
    let padding = f(delta) / 2.0;
    Interval::new(s(f(i.min) - padding), s(f(i.max) + padding))
}

fn pbox(a: &Vector, b: &Vector) -> AABB {
    AABB::point_new(a, b, &size, &expand)
}

#[test]
fn sphere_on_the_optical_axis_is_met_at_its_near_side() {
    let image_width = 400u32;
    let image_height = (image_width as f64 / (16.0 / 9.0)).round() as u32;
    assert_eq!(image_height, 225);
    let (disc, near, far) = sphere_roots([0.0, 0.0, -1.0], 0.5, [0.0; 3], [0.0, 0.0, -1.0]);
    let t = Sphere::hit(s(disc), s(near), s(far), &window(0.001, f64::INFINITY)).unwrap();
    assert!((f(t) - 0.5).abs() < 1e-12);
    let viewport_height = 2.0;
    let viewport_width = viewport_height * (image_width as f64 / image_height as f64);
    let du = viewport_width / image_width as f64;
    let dv = -viewport_height / image_height as f64;
    let x = -viewport_width / 2.0 + du * (200.0 + 0.5);
    let y = viewport_height / 2.0 + dv * (112.0 + 0.5);
    let (disc, near, far) = sphere_roots([0.0, 0.0, -1.0], 0.5, [0.0; 3], [x, y, -1.0]);
    let t = Sphere::hit(s(disc), s(near), s(far), &window(0.001, f64::INFINITY)).unwrap();
    assert!((f(t) - 0.5).abs() < 1e-3);
}

#[test]
fn sphere_hit_takes_the_far_root_from_inside_and_none_past_the_window() {
    let (disc, near, far) = sphere_roots([0.0, 0.0, 0.0], 2.0, [0.0; 3], [0.0, 0.0, -1.0]);
    assert_eq!((near, far), (-2.0, 2.0));
    let w = window(0.001, f64::INFINITY);
    assert_eq!(f(Sphere::hit(s(disc), s(near), s(far), &w).unwrap()), 2.0);
    assert!(Sphere::hit(s(disc), s(near), s(far), &window(0.001, 1.9)).is_none());
    assert!(Sphere::hit(s(disc), s(near), s(far), &window(0.001, 2.0)).is_none());
    assert!(Sphere::hit(s(disc), s(near), s(far), &window(2.0, 9.0)).is_none());
    assert_eq!(f(Sphere::hit(s(disc), s(near), s(far), &window(-5.0, 9.0)).unwrap()), -2.0);
}

#[test]
fn sphere_hit_misses_on_a_negative_discriminant() {
    let (disc, near, far) = sphere_roots([0.0, 5.0, -3.0], 1.0, [0.0; 3], [0.0, 0.0, -1.0]);
    assert!(disc < 0.0);
    assert!(Sphere::hit(s(disc), s(near), s(far), &window(0.001, f64::INFINITY)).is_none());
    assert!(Sphere::hit(s(-1.0), s(1.0), s(2.0), &window(0.0, 9.0)).is_none());
    assert!(Sphere::hit(s(0.0), s(1.0), s(1.0), &window(0.0, 9.0)).is_some());
}

#[test]
fn sphere_hit_matches_the_analytic_root_on_random_rays() {
    let mut rng = rand::thread_rng();
    let mut hits = 0;
    for _ in 0..2000 {
        let c = [rng.gen_range(-3.0..3.0), rng.gen_range(-3.0..3.0), rng.gen_range(-8.0..-4.0)];
        let r = rng.gen_range(0.2..2.0);
        let target = [
            c[0] + rng.gen_range(-1.0..1.0) * r,
            c[1] + rng.gen_range(-1.0..1.0) * r,
            c[2] + rng.gen_range(-1.0..1.0) * r,
        ];
        let d = target;
        let (disc, near, far) = sphere_roots(c, r, [0.0; 3], d);
        if let Some(t) = Sphere::hit(s(disc), s(near), s(far), &window(0.001, f64::INFINITY)) {
            hits += 1;
            let p = scale(d, f(t));
            let n = scale(sub(p, c), 1.0 / r);
            assert!((dot(n, n).sqrt() - 1.0).abs() < 1e-9);
            let mut rec = HitRecord::new(vv(p), vv([0.0; 3]), t, false);
            rec.set_face_normal(s(dot(d, n)), &vv(n));
            assert!(rec.front_face);
            assert!(dot(d, a3(rec.normal)) < 0.0);
            assert!((dot(sub(p, c), sub(p, c)).sqrt() - r).abs() < 1e-9);
        }
    }
    assert!(hits > 500);
}

#[test]
fn sphere_constructors_bound_the_sphere() {
    let b = Sphere::new(v(1.0, 2.0, 3.0), s(0.5), 4, pbox(&v(0.5, 1.5, 2.5), &v(1.5, 2.5, 3.5)));
    assert_eq!(b.mat, Some(4));
    assert!(!b.is_moving);
    assert_eq!(a3(b.center_vec), [0.0, 0.0, 0.0]);
    assert_eq!((f(b.bbox.x.min), f(b.bbox.x.max)), (0.5, 1.5));
    assert_eq!((f(b.bounding_box().z.min), f(b.bounding_box().z.max)), (2.5, 3.5));
    let b1 = pbox(&v(0.0, 0.0, 0.0), &v(1.0, 1.0, 1.0));
    let b2 = pbox(&v(0.0, 2.0, 0.0), &v(1.0, 3.0, 1.0));
    let m = Sphere::new_moving(v(0.5, 0.5, 0.5), v(0.0, 2.0, 0.0), s(0.5), 9, &b1, &b2);
    assert!(m.is_moving);
    assert_eq!(a3(m.center_vec), [0.0, 2.0, 0.0]);
    assert_eq!((f(m.bbox.y.min), f(m.bbox.y.max)), (0.0, 3.0));
}

fn quad(q: [f64; 3], u: [f64; 3], w_: [f64; 3], mat: usize) -> Quad {
    let n = cross(u, w_);
    let len = dot(n, n).sqrt();
    let normal = scale(n, 1.0 / len);
    Quad::new(
        vv(q),
        vv(u),
        vv(w_),
        vv(scale(n, 1.0 / dot(n, n))),
        vv(normal),
        s(dot(normal, q)),
        mat,
        &pbox(&vv(q), &vv(plus(plus(q, u), w_))),
        &pbox(&vv(plus(q, u)), &vv(plus(q, w_))),
    )
}

fn quad_hit(qd: &Quad, o: [f64; 3], d: [f64; 3], w: Interval) -> Option<HitRecord> {
    let denom = dot(a3(qd.normal), d);
    let t = (f(qd.d) - dot(a3(qd.normal), o)) / denom;
    let p = plus(o, scale(d, t));
    let planar = sub(p, a3(qd.q));
    let alpha = dot(a3(qd.w), cross(planar, a3(qd.v)));
    let beta = dot(a3(qd.w), cross(a3(qd.u), planar));
    qd.hit(s(denom), s(t), vv(p), s(alpha), s(beta), &w)
}

#[test]
fn quad_is_met_inside_and_missed_outside() {
    let qd = quad([-1.0, -1.0, -3.0], [2.0, 0.0, 0.0], [0.0, 2.0, 0.0], 5);
    assert_eq!((f(qd.bbox.x.min), f(qd.bbox.x.max)), (-1.0, 1.0));
    assert_eq!((f(qd.bbox.z.min), f(qd.bbox.z.max)), (-3.0 - 0.00005, -3.0 + 0.00005));
    let w = window(0.001, f64::INFINITY);
    let rec = quad_hit(&qd, [0.0; 3], [0.25, 0.0, -1.0], w).unwrap();
    assert_eq!(f(rec.t), 3.0);
    assert_eq!(rec.mat, Some(5));
    assert_eq!(a3(rec.p), [0.75, 0.0, -3.0]);
    assert!((f(rec.u) - 0.875).abs() < 1e-12);
    assert!((f(rec.v) - 0.5).abs() < 1e-12);
    assert!(quad_hit(&qd, [0.0; 3], [0.5, 0.0, -1.0], w).is_none());
    assert!(rec.front_face);
    assert_eq!(a3(rec.normal), [0.0, 0.0, 1.0]);
    assert!(quad_hit(&qd, [0.0; 3], [2.0, 0.0, -1.0], w).is_none());
    assert!(quad_hit(&qd, [0.0; 3], [0.0, 0.0, 1.0], w).is_none());
    assert!(quad_hit(&qd, [0.0; 3], [0.0, 0.0, -1.0], window(0.001, 2.5)).is_none());
    assert!(quad_hit(&qd, [0.0; 3], [0.0, 0.0, -1.0], window(0.001, 3.0)).is_some());
    assert!(quad_hit(&qd, [0.0; 3], [1.0, 0.0, 0.0], w).is_none());
    let back = quad_hit(&qd, [0.0, 0.0, -6.0], [0.0, 0.0, 1.0], w).unwrap();
    assert!(!back.front_face);
    assert_eq!(a3(back.normal), [0.0, 0.0, -1.0]);
    assert_eq!(f(back.t), 3.0);
}

#[test]
fn quad_interior_is_the_closed_unit_square() {
    assert!(Quad::is_interior(s(0.0), s(0.0)).is_some());
    assert!(Quad::is_interior(s(1.0), s(1.0)).is_some());
    assert!(Quad::is_interior(s(0.3), s(0.9)).is_some());
    assert!(Quad::is_interior(s(-0.001), s(0.5)).is_none());
    assert!(Quad::is_interior(s(0.5), s(1.001)).is_none());
    assert!(Quad::is_interior(s(f64::NAN), s(0.5)).is_none());
    let rec = Quad::is_interior(s(0.25), s(0.75)).unwrap();
    assert_eq!((f(rec.u), f(rec.v)), (0.25, 0.75));
    assert_eq!(rec.mat, None);
    assert_eq!(f(rec.t), 0.0);
}

#[test]
fn quad_set_bounding_box_joins_both_diagonals() {
    let mut qd = quad([0.0, 0.0, 0.0], [1.0, 0.0, 0.0], [0.0, 1.0, 0.0], 0);
    qd.set_bounding_box(
        &pbox(&v(0.0, 0.0, 0.0), &v(3.0, 4.0, 0.5)),
        &pbox(&v(5.0, -1.0, 2.0), &v(-2.0, 1.0, 0.0)),
    );
    assert_eq!((f(qd.bbox.x.min), f(qd.bbox.x.max)), (-2.0, 5.0));
    assert_eq!((f(qd.bbox.y.min), f(qd.bbox.y.max)), (-1.0, 4.0));
    assert_eq!((f(qd.bounding_box().z.min), f(qd.bounding_box().z.max)), (0.0, 2.0));
}

fn triangle(a: [f64; 3], b: [f64; 3], c: [f64; 3], mat: usize) -> Triangle {
    let u = sub(b, a);
    let w_ = sub(c, a);
    let n = cross(u, w_);
    let len = dot(n, n).sqrt();
    let normal = scale(n, 1.0 / len);
    Triangle::new(
        vv(a),
        vv(u),
        vv(w_),
        vv(scale(n, 1.0 / dot(n, n))),
        vv(normal),
        s(dot(normal, a)),
        s(len / 2.0),
        mat,
        &pbox(&vv(a), &vv(b)),
        &pbox(&vv(a), &vv(c)),
    )
}

fn triangle_hit(tr: &Triangle, o: [f64; 3], d: [f64; 3], w: Interval) -> Option<HitRecord> {
    let denom = dot(a3(tr.normal), d);
    let t = (f(tr.d) - dot(a3(tr.normal), o)) / denom;
    let p = plus(o, scale(d, t));
    let planar = sub(p, a3(tr.q));
    let alpha = dot(a3(tr.w), cross(planar, a3(tr.v)));
    let beta = dot(a3(tr.w), cross(a3(tr.u), planar));
    tr.hit(s(denom), s(t), vv(p), s(alpha), s(beta), s(alpha + beta), &w)
}

#[test]
fn triangle_is_met_below_the_diagonal_only() {
    let tr = triangle([0.0, 0.0, -2.0], [2.0, 0.0, -2.0], [0.0, 2.0, -2.0], 3);
    assert_eq!(f(tr.area), 2.0);
    assert_eq!((f(tr.bounding_box().x.min), f(tr.bounding_box().x.max)), (-0.00005, 2.0));
    assert_eq!((f(tr.bounding_box().z.min), f(tr.bounding_box().z.max)), (-2.00005, -1.99995));
    let w = window(0.001, f64::INFINITY);
    let rec = triangle_hit(&tr, [0.5, 0.5, 0.0], [0.0, 0.0, -1.0], w).unwrap();
    assert_eq!(f(rec.t), 2.0);
    assert_eq!(rec.mat, Some(3));
    assert_eq!((f(rec.u), f(rec.v)), (0.25, 0.25));
    assert!(triangle_hit(&tr, [1.5, 1.5, 0.0], [0.0, 0.0, -1.0], w).is_none());
    assert!(triangle_hit(&tr, [1.0, 1.0, 0.0], [0.0, 0.0, -1.0], w).is_some());
    assert!(triangle_hit(&tr, [-0.5, 0.5, 0.0], [0.0, 0.0, -1.0], w).is_none());
    assert!(triangle_hit(&tr, [0.5, 0.5, 0.0], [1.0, 0.0, 0.0], w).is_none());
}

#[test]
fn triangle_interior_needs_the_sum_within_one() {
    assert!(Triangle::is_interior(s(0.5), s(0.5), s(1.0)).is_some());
    assert!(Triangle::is_interior(s(0.6), s(0.5), s(1.1)).is_none());
    assert!(Triangle::is_interior(s(0.0), s(0.0), s(0.0)).is_some());
    assert!(Triangle::is_interior(s(-0.1), s(0.5), s(0.4)).is_none());
    let mut tr = triangle([0.0; 3], [1.0, 0.0, 0.0], [0.0, 1.0, 0.0], 0);
    tr.set_bounding_box(
        &pbox(&v(0.0, 0.0, 0.0), &v(4.0, 1.0, 1.0)),
        &pbox(&v(0.0, 0.0, 0.0), &v(1.0, -3.0, 1.0)),
    );
    assert_eq!((f(tr.bbox.x.min), f(tr.bbox.x.max)), (0.0, 4.0));
    assert_eq!((f(tr.bbox.y.min), f(tr.bbox.y.max)), (-3.0, 1.0));
    assert_eq!((f(tr.bbox.z.min), f(tr.bbox.z.max)), (0.0, 1.0));
}

#[test]
fn set_face_normal_turns_the_normal_against_the_ray() {
    let n = v(0.0, 1.0, 0.0);
    let mut rec = HitRecord::new(v(1.0, 2.0, 3.0), v(0.0, 0.0, 0.0), s(4.0), false);
    assert_eq!(rec.mat, None);
    assert_eq!((f(rec.u), f(rec.v), f(rec.t)), (0.0, 0.0, 4.0));
    rec.set_face_normal(s(-0.5), &n);
    assert!(rec.front_face);
    assert_eq!(a3(rec.normal), [0.0, 1.0, 0.0]);
    rec.set_face_normal(s(0.5), &n);
    assert!(!rec.front_face);
    assert_eq!(a3(rec.normal), [0.0, -1.0, 0.0]);
    rec.set_face_normal(s(0.0), &n);
    assert!(!rec.front_face);
    rec.set_face_normal(s(f64::NAN), &n);
    assert!(!rec.front_face);
    assert_eq!(a3(rec.p), [1.0, 2.0, 3.0]);
    let d = HitRecord::default();
    assert_eq!(f(d.t), 0.0);
    assert!(!d.front_face);
}

#[test]
fn rotate_y_bounds_all_eight_corners() {
    let theta = 30f64.to_radians();
    let (sin, cos) = (theta.sin(), theta.cos());
    let mut corners = [v(0.0, 0.0, 0.0); 8];
    let mut k = 0;
    let mut want = ([f64::INFINITY; 3], [f64::NEG_INFINITY; 3]);
    for i in 0..2 {
        for j in 0..2 {
            for l in 0..2 {
                let x = i as f64 * 2.0 - 1.0;
                let y = j as f64 * 3.0;
                let z = l as f64 * 4.0 + 1.0;
                let p = [cos * x + sin * z, y, -sin * x + cos * z];
                corners[k] = vv(p);
                k += 1;
                for a in 0..3 {
                    want.0[a] = want.0[a].min(p[a]);
                    want.1[a] = want.1[a].max(p[a]);
                }
            }
        }
    }
    let r = RotateY::new(6, s(sin), s(cos), &corners, &size, &expand);
    assert_eq!(r.object, 6);
    assert_eq!((f(r.sin_theta), f(r.cos_theta)), (sin, cos));
    for a in 0..3 {
        assert_eq!(f(r.bbox.axis_interval(a as u32).min), want.0[a]);
        assert_eq!(f(r.bounding_box().axis_interval(a as u32).max), want.1[a]);
    }
    let t = Translate::new(2, &v(1.0, 0.0, 0.0), r.bbox);
    assert_eq!(t.object, 2);
    assert_eq!(a3(t.offset), [1.0, 0.0, 0.0]);
    assert_eq!(f(t.bounding_box().y.max), 3.0);
}

#[test]
fn fog_clip_keeps_what_lies_within_the_window() {
    let w = window(0.001, 10.0);
    let (a, b) = ConstantMedium::clip(s(2.0), s(5.0), &w).unwrap();
    assert_eq!((f(a), f(b)), (2.0, 5.0));
    let (a, b) = ConstantMedium::clip(s(-2.0), s(5.0), &w).unwrap();
    assert_eq!((f(a), f(b)), (0.001, 5.0));
    let (a, b) = ConstantMedium::clip(s(2.0), s(50.0), &w).unwrap();
    assert_eq!((f(a), f(b)), (2.0, 10.0));
    assert!(ConstantMedium::clip(s(11.0), s(12.0), &w).is_none());
    assert!(ConstantMedium::clip(s(-5.0), s(-1.0), &w).is_none());
    assert!(ConstantMedium::clip(s(3.0), s(3.0), &w).is_none());
    let (a, b) = ConstantMedium::clip(s(-4.0), s(5.0), &window(-3.0, 10.0)).unwrap();
    assert_eq!((f(a), f(b)), (0.0, 5.0));
}

fn fog(density: f64) -> ConstantMedium {
    ConstantMedium::new(0, s(-1.0 / density), 11)
}

fn through_ball(
    medium: &ConstantMedium,
    o: [f64; 3],
    d: [f64; 3],
    w: Interval,
    draw: f64,
) -> Option<HitRecord> {
    let c = [0.0, 0.0, -5.0];
    let r = 2.0;
    let ball = |win: Interval| {
        let (disc, near, far) = sphere_roots(c, r, o, d);
        Sphere::hit(s(disc), s(near), s(far), &win)
            .map(|t| HitRecord::new(vv(plus(o, scale(d, f(t)))), vv([0.0; 3]), t, true))
    };
    let enter = |win: Interval| ball(win);
    let leave = |t: Scalar| ball(window(f(t) + 0.0001, f64::INFINITY));
    let flight = |a: Scalar, b: Scalar| {
        let ray_length = dot(d, d).sqrt();
        let hit_distance = f(medium.neg_inv_density) * draw.ln();
        let t = f(a) + hit_distance / ray_length;
        Flight {
            distance_inside: s((f(b) - f(a)) * ray_length),
            hit_distance: s(hit_distance),
            t: s(t),
            p: vv(plus(o, scale(d, t))),
        }
    };
    medium.hit(&enter, &leave, &flight, &w)
}

#[test]
fn fog_scatters_where_the_drawn_length_fits_inside() {
    let medium = fog(0.5);
    assert_eq!(medium.boundary, 0);
    assert_eq!(medium.phase_function, 11);
    let w = window(0.001, f64::INFINITY);
    let draw = (-0.5f64).exp();
    let rec = through_ball(&medium, [0.0; 3], [0.0, 0.0, -1.0], w, draw).unwrap();
    assert!((f(rec.t) - 4.0).abs() < 1e-12);
    assert_eq!(rec.mat, Some(11));
    assert!(rec.front_face);
    assert_eq!(a3(rec.normal), [1.0, 0.0, 0.0]);
    assert!((f(rec.p.z) + 4.0).abs() < 1e-12);
    let draw = (-2.5f64).exp();
    assert!(through_ball(&medium, [0.0; 3], [0.0, 0.0, -1.0], w, draw).is_none());
    assert!(through_ball(&medium, [0.0; 3], [0.0, 0.0, 1.0], w, 0.9).is_none());
    assert!(through_ball(&medium, [0.0; 3], [0.0, 1.0, 0.0], w, 0.9).is_none());
    assert!(through_ball(&medium, [0.0; 3], [0.0, 0.0, -1.0], window(0.001, 3.0), 0.9).is_none());
    let inside = through_ball(&medium, [0.0, 0.0, -5.0], [0.0, 0.0, -1.0], w, (-0.5f64).exp());
    assert!((f(inside.unwrap().t) - 1.001).abs() < 1e-9);
}

#[test]
fn fog_scatters_the_expected_share_of_rays() {
    let mut rng = rand::thread_rng();
    for &density in &[0.05, 0.25, 1.0] {
        let medium = fog(density);
        let trials = 40000;
        let mut scattered = 0;
        for _ in 0..trials {
            let draw: f64 = rng.gen_range(0.0..1.0);
            let w = window(0.001, f64::INFINITY);
            if through_ball(&medium, [0.0; 3], [0.0, 0.0, -1.0], w, draw).is_some() {
                scattered += 1;
            }
        }
        let path_length = 4.0;
        let want = 1.0 - (-density * path_length as f64).exp();
        let got = scattered as f64 / trials as f64;
        assert!((got - want).abs() < 0.02, "density {density}: {got} against {want}");
    }
}

#[test]
fn a_ray_along_the_plane_counts_as_parallel() {
    assert!(Quad::is_parallel(s(0.0)));
    assert!(Quad::is_parallel(s(-0.0)));
    assert!(Quad::is_parallel(s(9.9e-9)));
    assert!(Quad::is_parallel(s(-9.9e-9)));
    assert!(!Quad::is_parallel(s(1e-8)));
    assert!(!Quad::is_parallel(s(-1e-8)));
    assert!(!Quad::is_parallel(s(0.5)));
    assert!(!Quad::is_parallel(s(f64::NAN)));
}

#[test]
fn sphere_record_turns_the_normal_and_carries_the_material() {
    let ball = Sphere::new(v(0.0, 0.0, -1.0), s(0.5), 4, pbox(&v(-0.5, -0.5, -1.5), &v(0.5, 0.5, -0.5)));
    let n = v(0.0, 0.0, 1.0);
    let rec = ball.record(s(0.5), v(0.0, 0.0, -0.5), &n, s(-1.0), s(0.25), s(0.5));
    assert_eq!(f(rec.t), 0.5);
    assert_eq!(a3(rec.p), [0.0, 0.0, -0.5]);
    assert_eq!(a3(rec.normal), [0.0, 0.0, 1.0]);
    assert!(rec.front_face);
    assert_eq!(rec.mat, Some(4));
    assert_eq!((f(rec.u), f(rec.v)), (0.25, 0.5));
    let rec = ball.record(s(1.5), v(0.0, 0.0, -1.5), &v(0.0, 0.0, -1.0), s(1.0), s(0.0), s(0.0));
    assert!(!rec.front_face);
    assert_eq!(a3(rec.normal), [0.0, 0.0, 1.0]);
    assert_eq!(f(rec.t), 1.5);
}
