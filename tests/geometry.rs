use raytrace::sphere::Side;
use raytrace::{Crossing, Ray, Sphere, Vec3};

fn distance(c: &Crossing) -> f64 {
    let a = c.a as f64;
    let b = c.b as f64;
    let q = (c.q as f64).sqrt();
    match c.side {
        Side::Near => (-b - q) / a.sqrt(),
        Side::Far => (-b + q) / a.sqrt(),
    }
}

fn unit_sphere_at_origin() -> Sphere {
    Sphere::from(Vec3::from(0, 0, 0), 5000, Vec3::from(1000, 1000, 1000))
}

#[test]
fn vec_from_keeps_components() {
    let v = Vec3::from(1, -2, 3);
    assert_eq!((v.x, v.y, v.z), (1, -2, 3));
}

#[test]
fn vec_plus_and_minus() {
    let a = Vec3::from(1, 2, 3);
    let b = Vec3::from(10, -20, 30);
    assert_eq!(Vec3::plus(&a, &b), Vec3::from(11, -18, 33));
    assert_eq!(Vec3::minus(&a, &b), Vec3::from(-9, 22, -27));
}

#[test]
fn vec_scale_by_negative_and_zero() {
    let a = Vec3::from(4, -5, 6);
    assert_eq!(a.scale(-3), Vec3::from(-12, 15, -18));
    assert_eq!(a.scale(0), Vec3::from(0, 0, 0));
}

#[test]
fn vec_dot_and_norm_squared() {
    let a = Vec3::from(1, 2, 3);
    let b = Vec3::from(4, -5, 6);
    assert_eq!(Vec3::dot(&a, &b), 12);
    assert_eq!(a.norm_squared(), 14);
    assert_eq!(a.norm_squared(), Vec3::dot(&a, &a));
    assert_eq!(Vec3::from(0, 0, 0).norm_squared(), 0);
}

#[test]
fn ray_from_keeps_origin_and_direction() {
    let r = Ray::from(Vec3::from(1, 2, 3), Vec3::from(0, 0, 7));
    assert_eq!(r.origin, Vec3::from(1, 2, 3));
    assert_eq!(r.direction, Vec3::from(0, 0, 7));
}

#[test]
fn ray_aimed_at_center_hits_at_distance_minus_radius() {
    let s = unit_sphere_at_origin();
    let r = Ray::from(Vec3::from(0, -10000, 0), Vec3::from(0, 10000, 0));
    let c = s.intersect(&r).expect("hit");
    assert_eq!(c, Crossing { side: Side::Near, a: 100_000_000, b: -100_000_000, q: 2_500_000_000_000_000 });
    assert!((distance(&c) - 5000.0).abs() < 1e-6);
}

#[test]
fn ray_aimed_at_center_with_short_direction() {
    let s = unit_sphere_at_origin();
    let r = Ray::from(Vec3::from(3000, 4000, 12000), Vec3::from(-3, -4, -12));
    let c = s.intersect(&r).expect("hit");
    assert_eq!(c.side, Side::Near);
    assert!((distance(&c) - 8000.0).abs() < 1e-6);
}

#[test]
fn ray_passing_outside_radius_misses() {
    let s = unit_sphere_at_origin();
    let r = Ray::from(Vec3::from(5001, -10000, 0), Vec3::from(0, 1, 0));
    assert_eq!(s.intersect(&r), None);
}

#[test]
fn tangent_ray_misses() {
    let s = unit_sphere_at_origin();
    let r = Ray::from(Vec3::from(5000, -10000, 0), Vec3::from(0, 1, 0));
    assert_eq!(s.intersect(&r), None);
    let r2 = Ray::from(Vec3::from(-10000, 0, -5000), Vec3::from(3, 0, 0));
    assert_eq!(s.intersect(&r2), None);
}

#[test]
fn ray_from_inside_hits_far_root() {
    let s = unit_sphere_at_origin();
    let r = Ray::from(Vec3::from(0, 0, 0), Vec3::from(0, 1, 0));
    let c = s.intersect(&r).expect("hit");
    assert_eq!(c.side, Side::Far);
    assert!((distance(&c) - 5000.0).abs() < 1e-6);
    let r2 = Ray::from(Vec3::from(0, 3000, 0), Vec3::from(0, -2, 0));
    let c2 = s.intersect(&r2).expect("hit");
    assert_eq!(c2.side, Side::Far);
    assert!((distance(&c2) - 8000.0).abs() < 1e-6);
}

#[test]
fn sphere_behind_ray_misses() {
    let s = unit_sphere_at_origin();
    let r = Ray::from(Vec3::from(0, 10000, 0), Vec3::from(0, 1, 0));
    assert_eq!(s.intersect(&r), None);
}

#[test]
fn origin_on_surface_looking_inward_takes_far_root() {
    let s = unit_sphere_at_origin();
    let r = Ray::from(Vec3::from(0, -5000, 0), Vec3::from(0, 1, 0));
    let c = s.intersect(&r).expect("hit");
    assert_eq!(c.side, Side::Far);
    assert!((distance(&c) - 10000.0).abs() < 1e-6);
}

#[test]
fn origin_on_surface_looking_outward_misses() {
    let s = unit_sphere_at_origin();
    let r = Ray::from(Vec3::from(0, -5000, 0), Vec3::from(0, -1, 0));
    assert_eq!(s.intersect(&r), None);
}

#[test]
fn zero_radius_sphere_is_never_hit() {
    let s = Sphere::from(Vec3::from(0, 0, 0), 0, Vec3::from(0, 0, 0));
    let r = Ray::from(Vec3::from(0, -10, 0), Vec3::from(0, 1, 0));
    assert_eq!(s.intersect(&r), None);
}

#[test]
fn negative_radius_behaves_as_its_magnitude() {
    let s = Sphere::from(Vec3::from(0, 0, 0), -5000, Vec3::from(0, 0, 0));
    let r = Ray::from(Vec3::from(0, -10000, 0), Vec3::from(0, 1, 0));
    let c = s.intersect(&r).expect("hit");
    assert!((distance(&c) - 5000.0).abs() < 1e-6);
}

#[test]
fn sphere_from_keeps_fields() {
    let s = Sphere::from(Vec3::from(1, 2, 3), 4, Vec3::from(5, 6, 7));
    assert_eq!(s.center, Vec3::from(1, 2, 3));
    assert_eq!(s.radius, 4);
    assert_eq!(s.colour, Vec3::from(5, 6, 7));
}

#[test]
fn scaling_direction_keeps_the_hit_side() {
    let s = unit_sphere_at_origin();
    for (o, d) in [((0, -10000, 0), (0, 1, 0)), ((0, 0, 0), (1, 1, 0)), ((6000, -9000, 0), (0, 1, 0))] {
        let o = Vec3::from(o.0, o.1, o.2);
        let d = Vec3::from(d.0, d.1, d.2);
        let short = s.intersect(&Ray::from(o, d)).map(|c| c.side);
        let long = s.intersect(&Ray::from(o, d.scale(7))).map(|c| c.side);
        assert_eq!(short, long);
    }
}
