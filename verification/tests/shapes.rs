use std::cell::Cell;

use raytracer::hittable::{Cube, HitRecord, Plane, Span, Sphere, StepSphere, MARCH_STEPS};
use raytracer::material::{Material, Metal};
use raytracer::ray::Ray;
use raytracer::scalar::{Scalar, Vec3};

fn s(x: f64) -> Scalar {
    Scalar::from_bits(x.to_bits())
}

fn f(x: Scalar) -> f64 {
    f64::from_bits(x.to_bits())
}

fn v(x: f64, y: f64, z: f64) -> Vec3 {
    Vec3 { x: s(x), y: s(y), z: s(z) }
}

fn sub(a: [f64; 3], b: [f64; 3]) -> [f64; 3] {
    [a[0] - b[0], a[1] - b[1], a[2] - b[2]]
}

fn dot(a: [f64; 3], b: [f64; 3]) -> f64 {
    a[0] * b[0] + a[1] * b[1] + a[2] * b[2]
}

fn length(a: [f64; 3]) -> f64 {
    dot(a, a).sqrt()
}

fn along(origin: [f64; 3], dir: [f64; 3], t: f64) -> [f64; 3] {
    [origin[0] + dir[0] * t, origin[1] + dir[1] * t, origin[2] + dir[2] * t]
}

fn unit(a: [f64; 3]) -> [f64; 3] {
    let l = length(a);
    [a[0] / l, a[1] / l, a[2] / l]
}

/// The two roots of a sphere and their discriminant, and which one counts.
fn sphere_t(
    center: [f64; 3],
    radius: f64,
    origin: [f64; 3],
    dir: [f64; 3],
    t_min: f64,
    t_max: f64,
) -> Option<f64> {
    let oc = sub(origin, center);
    let a = dot(dir, dir);
    let b = dot(oc, dir);
    let c = dot(oc, oc) - radius * radius;
    let discriminant = b * b - a * c;
    let near = (-b - discriminant.sqrt()) / a;
    let far = (-b + discriminant.sqrt()) / a;
    Sphere::nearest_root(s(discriminant), s(near), s(far), s(t_min), s(t_max)).map(f)
}

fn march_t(
    center: [f64; 3],
    radius: f64,
    origin: [f64; 3],
    dir: [f64; 3],
    t_min: f64,
    t_max: f64,
) -> Option<(f64, u32)> {
    StepSphere::march(s(t_min), s(t_max), |t: Scalar| {
        let d = length(sub(along(origin, dir, f(t)), center)) - radius;
        (s(d), s(f(t) + d))
    })
    .map(|(t, n)| (f(t), n))
}

#[test]
fn sphere_is_entered_at_distance_less_radius() {
    let t = sphere_t([0.0, 0.0, -5.0], 1.0, [0.0; 3], [0.0, 0.0, -1.0], 1e-6, 100.0).unwrap();
    assert!((t - 4.0).abs() < 1e-6);
    let dir = unit([3.0, -2.0, 6.0]);
    let center = along([1.0, 2.0, 3.0], dir, 7.0);
    let t = sphere_t(center, 2.5, [1.0, 2.0, 3.0], dir, 1e-6, 100.0).unwrap();
    assert!((t - 4.5).abs() < 1e-6);
}

#[test]
fn sphere_is_left_at_distance_plus_radius() {
    let t = sphere_t([0.0, 0.0, -5.0], 1.0, [0.0; 3], [0.0, 0.0, -1.0], 4.5, 100.0).unwrap();
    assert!((t - 6.0).abs() < 1e-6);
    let dir = unit([3.0, -2.0, 6.0]);
    let center = along([1.0, 2.0, 3.0], dir, 7.0);
    let t = sphere_t(center, 2.5, [1.0, 2.0, 3.0], dir, 5.0, 100.0).unwrap();
    assert!((t - 9.5).abs() < 1e-6);
}

#[test]
fn sphere_roots_outside_the_bounds_do_not_count() {
    assert_eq!(sphere_t([0.0, 0.0, -5.0], 1.0, [0.0; 3], [0.0, 0.0, -1.0], 1e-6, 3.0), None);
    assert_eq!(sphere_t([0.0, 0.0, -5.0], 1.0, [0.0; 3], [0.0, 0.0, -1.0], 6.5, 100.0), None);
    assert_eq!(sphere_t([0.0, 0.0, -5.0], 1.0, [0.0; 3], [0.0, 0.0, -1.0], 4.5, 5.5), None);
}

#[test]
fn sphere_bounds_are_strict() {
    let pick = |t_min: f64, t_max: f64| {
        Sphere::nearest_root(s(1.0), s(4.0), s(6.0), s(t_min), s(t_max)).map(f)
    };
    assert_eq!(pick(0.0, 10.0), Some(4.0));
    assert_eq!(pick(4.0, 10.0), Some(6.0));
    assert_eq!(pick(0.0, 4.0), None);
    assert_eq!(pick(4.0, 6.0), None);
    assert_eq!(pick(0.0, 6.0), Some(4.0));
}

#[test]
fn sphere_choice_is_only_clipped_by_a_nearer_bound() {
    let bounds = [0.5, 1.0, 3.9, 4.0, 4.1, 5.0, 6.0, 6.5, 10.0];
    for t_min in [0.0, 4.0, 5.0, 7.0] {
        let full =
            Sphere::nearest_root(s(1.0), s(4.0), s(6.0), s(t_min), s(10.0)).map(f);
        for bound in bounds {
            let got = Sphere::nearest_root(s(1.0), s(4.0), s(6.0), s(t_min), s(bound)).map(f);
            let want = match full {
                Some(t) if t < bound => Some(t),
                _ => None,
            };
            assert_eq!(got, want, "{} {}", t_min, bound);
        }
    }
}

#[test]
fn sphere_needs_a_discriminant_above_zero() {
    let pick = |d: f64| Sphere::nearest_root(s(d), s(4.0), s(6.0), s(0.0), s(10.0)).map(f);
    assert_eq!(pick(0.0), None);
    assert_eq!(pick(-0.0), None);
    assert_eq!(pick(-1.0), None);
    assert_eq!(pick(f64::NAN), None);
    assert_eq!(pick(5e-324), Some(4.0));
}

#[test]
fn sphere_missed_by_a_ray_gives_nothing() {
    assert_eq!(sphere_t([0.0, 3.0, -5.0], 1.0, [0.0; 3], [0.0, 0.0, -1.0], 1e-6, 100.0), None);
}

#[test]
fn sphere_record_carries_the_fixed_metal() {
    let h = Sphere::record(s(4.0), v(0.0, 0.0, -4.0), v(0.0, 0.0, 1.0));
    assert_eq!(
        h,
        HitRecord {
            t: s(4.0),
            p: v(0.0, 0.0, -4.0),
            normal: v(0.0, 0.0, 1.0),
            number_of_steps: 1,
            material: Some(Material::Metal(Metal { Albedo: v(1.0, 0.1, 0.3) })),
        }
    );
}

#[test]
fn sphere_new_keeps_what_it_is_given() {
    let a = Sphere::new(v(1.0, 2.0, 3.0), s(0.25));
    assert_eq!(a.center, v(1.0, 2.0, 3.0));
    assert_eq!(a.radius, s(0.25));
    let b = StepSphere::new(v(-1.0, -2.0, -3.0), s(4.0));
    assert_eq!(b.center, v(-1.0, -2.0, -3.0));
    assert_eq!(b.radius, s(4.0));
}

#[test]
fn march_agrees_with_the_roots() {
    let origin = [0.0; 3];
    let dir = [0.0, 0.0, -1.0];
    let (t, steps) = march_t([0.0, 0.0, -5.0], 1.0, origin, dir, 1e-6, 100.0).unwrap();
    let exact = sphere_t([0.0, 0.0, -5.0], 1.0, origin, dir, 1e-6, 100.0).unwrap();
    assert!((t - exact).abs() < 1e-6);
    assert!(steps >= 1 && steps <= 64);
}

#[test]
fn march_agrees_with_the_roots_off_centre() {
    let origin = [0.0; 3];
    let dir = unit([0.1, 0.05, -1.0]);
    let (t, steps) = march_t([0.0, 0.0, -5.0], 1.0, origin, dir, 1e-6, 100.0).unwrap();
    let exact = sphere_t([0.0, 0.0, -5.0], 1.0, origin, dir, 1e-6, 100.0).unwrap();
    assert!((t - exact).abs() < 1e-6);
    assert!(steps > 2 && steps <= 64);
}

#[test]
fn march_past_the_far_bound_gives_nothing() {
    assert_eq!(march_t([0.0, 3.0, -5.0], 1.0, [0.0; 3], [0.0, 0.0, -1.0], 1e-6, 100.0), None);
    assert_eq!(march_t([0.0, 0.0, -5.0], 1.0, [0.0; 3], [0.0, 0.0, -1.0], 1e-6, 3.0), None);
}

#[test]
fn march_is_only_clipped_by_a_nearer_bound() {
    let origin = [0.0; 3];
    let dir = unit([0.1, 0.05, -1.0]);
    let centre = [0.0, 0.0, -5.0];
    let full = march_t(centre, 1.0, origin, dir, 1e-6, 100.0);
    assert!(full.is_some());
    for bound in [0.5, 2.0, 3.9, 4.0, 4.02, 4.05, 5.0, 50.0, 100.0] {
        let got = march_t(centre, 1.0, origin, dir, 1e-6, bound);
        let want = match full {
            Some((t, n)) if t < bound => Some((t, n)),
            _ => None,
        };
        assert_eq!(got, want, "{}", bound);
    }
}

#[test]
fn march_inside_the_surface_stops_at_once() {
    let got = march_t([0.0, 0.0, -5.0], 1.0, [0.0, 0.0, -5.0], [0.0, 0.0, -1.0], 0.25, 100.0);
    assert_eq!(got, Some((0.25, 1)));
}

#[test]
fn march_counts_its_probes() {
    let calls = Cell::new(0u32);
    let got = StepSphere::march(s(0.0), s(100.0), |t: Scalar| {
        calls.set(calls.get() + 1);
        let d = if calls.get() == 5 { 1e-10 } else { 1.0 };
        (s(d), s(f(t) + d))
    });
    assert_eq!(got, Some((s(4.0), 5)));
    assert_eq!(calls.get(), 5);
}

#[test]
fn march_gives_up_after_its_last_probe() {
    let calls = Cell::new(0u32);
    let got = StepSphere::march(s(0.0), s(100.0), |t: Scalar| {
        calls.set(calls.get() + 1);
        (s(0.001), s(f(t) + 0.001))
    });
    assert_eq!(got, None);
    assert_eq!(calls.get(), MARCH_STEPS);
    assert_eq!(MARCH_STEPS, 64);
}

#[test]
fn march_finds_the_surface_with_its_last_probe() {
    let calls = Cell::new(0u32);
    let got = StepSphere::march(s(0.0), s(100.0), |t: Scalar| {
        calls.set(calls.get() + 1);
        let d = if calls.get() == 64 { 0.0 } else { 0.5 };
        (s(d), s(f(t) + d))
    });
    assert_eq!(got, Some((s(31.5), 64)));
}

#[test]
fn march_threshold_is_strict() {
    let at = StepSphere::march(s(0.0), s(0.5), |_t: Scalar| (s(1e-9), s(1.0)));
    assert_eq!(at, None);
    let below = StepSphere::march(s(0.0), s(0.5), |_t: Scalar| (s(0.999e-9), s(1.0)));
    assert_eq!(below, Some((s(0.0), 1)));
}

#[test]
fn march_stops_on_reaching_the_far_bound() {
    let calls = Cell::new(0u32);
    let got = StepSphere::march(s(0.0), s(3.0), |t: Scalar| {
        calls.set(calls.get() + 1);
        (s(1.0), s(f(t) + 1.0))
    });
    assert_eq!(got, None);
    assert_eq!(calls.get(), 3);
}

#[test]
fn march_record_carries_no_material() {
    let h = StepSphere::record(s(4.0), 7, v(0.0, 0.0, -4.0), v(0.0, 0.0, 1.0));
    assert_eq!(
        h,
        HitRecord {
            t: s(4.0),
            p: v(0.0, 0.0, -4.0),
            normal: v(0.0, 0.0, 1.0),
            number_of_steps: 7,
            material: None,
        }
    );
}

#[test]
fn plane_is_met_only_beyond_grazing() {
    assert!(Plane::faces(s(1.0)));
    assert!(Plane::faces(s(0.010000000000000002)));
    assert!(!Plane::faces(s(0.01)));
    assert!(!Plane::faces(s(0.0)));
    assert!(!Plane::faces(s(-1.0)));
    assert!(!Plane::faces(s(f64::NAN)));
}

#[test]
fn plane_record_carries_the_planes_normal() {
    let plane = Plane { normal: v(0.0, -1.0, 0.0), point_on_plane: v(0.0, 0.0, -1.0) };
    let h = plane.record(s(2.0), v(1.0, 2.0, 3.0));
    assert_eq!(
        h,
        HitRecord {
            t: s(2.0),
            p: v(1.0, 2.0, 3.0),
            normal: v(0.0, -1.0, 0.0),
            number_of_steps: 1,
            material: None,
        }
    );
}

/// The slab test as a sequence of comparisons on machine numbers.
fn slab_by_hand(vmin: [f64; 3], vmax: [f64; 3]) -> Option<f64> {
    let mut tmin = vmin[0];
    let mut tmax = vmax[0];
    if tmin > tmax {
        let tmp = tmin;
        tmin = tmax;
        tmax = tmp;
    }
    let mut tymin = vmin[1];
    let mut tymax = vmax[1];
    if tymin > tymax {
        let tmp = tymin;
        tymin = tymax;
        tymax = tmp;
    }
    if (tmin > tymax) || (tymin > tmax) {
        return None;
    }
    if tymin > tmin {
        tmin = tymin;
    }
    if tymax < tmax {
        tmax = tymax;
    }
    let mut tzmin = vmin[2];
    let mut tzmax = vmax[2];
    if tzmin > tzmax {
        let tmp = tzmin;
        tzmin = tzmax;
        tzmax = tmp;
    }
    if (tmin > tzmax) || (tzmin > tmax) {
        return None;
    }
    if tzmin > tmin {
        tmin = tzmin;
    }
    if tzmax < tmax {
        tmax = tzmax;
    }
    let mut t = tmin;
    if t < 0.0 {
        t = tmax;
        if t < 0.0 {
            return None;
        }
    }
    Some(t)
}

fn slab(vmin: [f64; 3], vmax: [f64; 3]) -> Option<f64> {
    Cube::slab(v(vmin[0], vmin[1], vmin[2]), v(vmax[0], vmax[1], vmax[2])).map(f)
}

#[test]
fn slab_enters_at_the_latest_entry() {
    assert_eq!(slab([1.0, 2.0, 3.0], [4.0, 5.0, 6.0]), Some(3.0));
    assert_eq!(slab([4.0, 5.0, 6.0], [1.0, 2.0, 3.0]), Some(3.0));
    assert_eq!(slab([4.0, 2.0, 6.0], [1.0, 5.0, 3.0]), Some(3.0));
}

#[test]
fn slab_from_inside_leaves_at_the_earliest_exit() {
    assert_eq!(slab([-1.0, -2.0, -3.0], [4.0, 5.0, 6.0]), Some(4.0));
    assert_eq!(slab([-1.0, 5.0, -3.0], [4.0, -2.0, 2.5]), Some(2.5));
}

#[test]
fn slab_behind_the_origin_gives_nothing() {
    assert_eq!(slab([-4.0, -5.0, -6.0], [-1.0, -2.0, -3.0]), None);
}

#[test]
fn slab_apart_on_an_axis_gives_nothing() {
    assert_eq!(slab([1.0, 3.0, 1.0], [2.0, 4.0, 4.0]), None);
    assert_eq!(slab([3.0, 1.0, 1.0], [4.0, 2.0, 4.0]), None);
    assert_eq!(slab([1.0, 1.0, 5.0], [4.0, 4.0, 6.0]), None);
    assert_eq!(slab([5.0, 5.0, 1.0], [6.0, 6.0, 4.0]), None);
}

#[test]
fn slab_with_a_crossing_that_is_no_number_loses_its_bounds() {
    let t = slab([f64::NAN, 5.0, 1.0], [10.0, 6.0, 2.0]).unwrap();
    assert!(t.is_nan());
    assert_eq!(slab([10.0, 5.0, 1.0], [f64::NAN, 6.0, 2.0]), None);
}

#[test]
fn slab_touching_spans_still_meet() {
    assert_eq!(slab([1.0, 2.0, 1.0], [2.0, 3.0, 3.0]), Some(2.0));
    assert_eq!(slab([0.0, 0.0, 0.0], [0.0, 0.0, 0.0]), Some(0.0));
}

#[test]
fn slab_takes_minus_zero_for_ahead() {
    let t = Cube::slab(v(-0.0, -0.0, -0.0), v(1.0, 1.0, 1.0)).unwrap();
    assert_eq!(t.to_bits(), (-0.0f64).to_bits());
}

#[test]
fn slab_agrees_with_the_comparisons_by_hand() {
    let values = [
        -2.0,
        -1.0,
        -0.0,
        0.0,
        0.5,
        1.0,
        3.0,
        f64::INFINITY,
        f64::NEG_INFINITY,
        f64::NAN,
    ];
    let mut seen = 0u32;
    for a in values {
        for b in values {
            for c in values {
                for d in values {
                    for e in [-1.0, 0.0, 2.0, f64::NAN] {
                        for g in [-3.0, -0.0, 1.0, 4.0] {
                            let want = slab_by_hand([a, c, e], [b, d, g]);
                            let got = Cube::slab(v(a, c, e), v(b, d, g));
                            assert_eq!(
                                got.map(|t| t.to_bits()),
                                want.map(|t| t.to_bits()),
                                "{:?} {:?}",
                                [a, c, e],
                                [b, d, g]
                            );
                            seen += 1;
                        }
                    }
                }
            }
        }
    }
    assert_eq!(seen, 160_000);
}

#[test]
fn slab_of_a_ray_through_a_box() {
    let min = [0.4, 0.0, -0.5];
    let max = [0.6, 0.4, -0.3];
    let origin = [0.0, 0.0, 0.0];
    let dir = unit([1.0, 2.0, -1.0]);
    let vmin = [
        (min[0] - origin[0]) * dir[0],
        (min[1] - origin[1]) * dir[1],
        (min[2] - origin[2]) * dir[2],
    ];
    let vmax = [
        (max[0] - origin[0]) * dir[0],
        (max[1] - origin[1]) * dir[1],
        (max[2] - origin[2]) * dir[2],
    ];
    assert_eq!(slab(vmin, vmax), slab_by_hand(vmin, vmax));
    let t = slab(vmin, vmax).unwrap();
    assert!((t - 0.4 / 6.0f64.sqrt()).abs() < 1e-12);
    let hit = along(origin, dir, t);
    let centre = [(min[0] + max[0]) * 0.5, (min[1] + max[1]) * 0.5, (min[2] + max[2]) * 0.5];
    let half = [(min[0] - max[0]) * 0.5, (min[1] - max[1]) * 0.5, (min[2] - max[2]) * 0.5];
    let p = sub(hit, centre);
    let bias = 1.000001;
    let normal = unit([
        p[0] / half[0].abs() * bias,
        p[1] / half[1].abs() * bias,
        p[2] / half[2].abs() * bias,
    ]);
    assert!((length(normal) - 1.0).abs() < 1e-9);
    let h = Cube::record(s(t), v(hit[0], hit[1], hit[2]), v(normal[0], normal[1], normal[2]));
    assert_eq!(h.number_of_steps, 1);
    assert_eq!(h.material, None);
    assert_eq!(h.t, s(t));
}

#[test]
fn span_between_orders_its_ends() {
    assert_eq!(Span::between(s(2.0), s(1.0)), Span { lo: s(1.0), hi: s(2.0) });
    assert_eq!(Span::between(s(1.0), s(2.0)), Span { lo: s(1.0), hi: s(2.0) });
    assert_eq!(Span::between(s(0.0), s(-0.0)), Span { lo: s(0.0), hi: s(-0.0) });
    let nan = s(f64::NAN);
    assert_eq!(Span::between(nan, s(1.0)), Span { lo: nan, hi: s(1.0) });
}

#[test]
fn span_meet_is_the_shared_stretch() {
    let a = Span { lo: s(1.0), hi: s(4.0) };
    let b = Span { lo: s(2.0), hi: s(5.0) };
    assert_eq!(a.meet(b), Some(Span { lo: s(2.0), hi: s(4.0) }));
    assert_eq!(b.meet(a), Some(Span { lo: s(2.0), hi: s(4.0) }));
    let c = Span { lo: s(4.5), hi: s(5.0) };
    assert_eq!(a.meet(c), None);
    assert_eq!(c.meet(a), None);
}

#[test]
fn span_first_ahead_prefers_the_start() {
    assert_eq!(Span { lo: s(1.0), hi: s(4.0) }.first_ahead(), Some(s(1.0)));
    assert_eq!(Span { lo: s(-1.0), hi: s(4.0) }.first_ahead(), Some(s(4.0)));
    assert_eq!(Span { lo: s(-4.0), hi: s(-1.0) }.first_ahead(), None);
    assert_eq!(Span { lo: s(0.0), hi: s(4.0) }.first_ahead(), Some(s(0.0)));
}

#[test]
fn ray_new_normalizes_its_direction() {
    let r = Ray::new(v(1.0, 2.0, 3.0), v(0.0, 3.0, 4.0), |d: Vec3| {
        let u = unit([f(d.x), f(d.y), f(d.z)]);
        v(u[0], u[1], u[2])
    });
    assert_eq!(r.position(), v(1.0, 2.0, 3.0));
    assert_eq!(r.direction(), v(0.0, 0.6, 0.8));
}
