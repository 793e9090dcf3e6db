use raytracer::objects::{Mirror, Sphere};
use raytracer::trace::{nearest_hit, trace_step, TraceStep};
use raytracer::vecs::{Ray, Vec3};

#[test]
fn reflection_about_unnormalized_normal() {
    let m: Mirror<f64> = Vec3 { x: 0.5, y: 0.5, z: 0.5 };
    let incoming = Ray::new(Vec3 { x: 0.0, y: 0.0, z: 0.0 }, Vec3 { x: 1.0, y: -1.0, z: 0.0 });
    // The normal has length 3; the reflection must not depend on that.
    let hit = Ray::new(Vec3 { x: 1.0, y: -1.0, z: 0.0 }, Vec3 { x: 0.0, y: 3.0, z: 0.0 });
    let r = m.reflection(&incoming, &hit);
    assert_eq!(r.origin, Vec3 { x: 1.0, y: -1.0, z: 0.0 });
    assert_eq!(r.direction, Vec3 { x: 1.0, y: 1.0, z: 0.0 });
}

#[test]
fn reflection_integer_components() {
    let m: Mirror<i64> = Vec3 { x: 1, y: 1, z: 1 };
    let incoming = Ray::new(Vec3 { x: 0, y: 0, z: 0 }, Vec3 { x: 2, y: 0, z: -3 });
    let hit = Ray::new(Vec3 { x: 5, y: 5, z: 5 }, Vec3 { x: 0, y: 0, z: 1 });
    let r = m.reflection(&incoming, &hit);
    assert_eq!(r.origin, Vec3 { x: 5, y: 5, z: 5 });
    assert_eq!(r.direction, Vec3 { x: 2, y: 0, z: 3 });
}

#[test]
fn color_is_channelwise_product() {
    let m: Mirror<f64> = Vec3 { x: 0.5, y: 0.25, z: 1.0 };
    let c = m.color(&Vec3 { x: 1.0, y: 0.8, z: 0.3 });
    assert_eq!(c, Vec3 { x: 0.5, y: 0.2, z: 0.3 });
    for ch in [c.x, c.y, c.z].iter().zip([1.0, 0.8, 0.3].iter()) {
        assert!(ch.0 <= ch.1);
    }
}

#[test]
fn color_never_brightens_with_unit_reflectivity() {
    let m: Mirror<f64> = Vec3 { x: 1.0, y: 0.0, z: 0.9 };
    let input = Vec3 { x: 0.7, y: 0.6, z: 2.5 };
    let c = m.color(&input);
    assert_eq!(c.x, 0.7);
    assert_eq!(c.y, 0.0);
    assert!(c.z <= input.z);
}

#[test]
fn nearest_hit_picks_smallest_positive() {
    assert_eq!(nearest_hit(&vec![5i64, -1, 3, 7], &0), Some(2));
    assert_eq!(nearest_hit(&vec![0.4f64, -1.0, 0.0, 0.3], &0.0), Some(3));
}

#[test]
fn nearest_hit_none_when_nothing_ahead() {
    assert_eq!(nearest_hit(&vec![-1i64, 0, -7], &0), None);
    assert_eq!(nearest_hit::<i64>(&vec![], &0), None);
}

#[test]
fn nearest_hit_tie_goes_to_earlier() {
    assert_eq!(nearest_hit(&vec![-2i64, 4, 9, 4, 4], &0), Some(1));
    assert_eq!(nearest_hit(&vec![1.5f64, 1.5], &0.0), Some(0));
}

#[test]
fn trace_step_depth_exhausted_is_absorbed() {
    assert_eq!(trace_step(0, &vec![1i64, 2, 3], &0), TraceStep::Absorbed);
    assert_eq!(trace_step(0, &Vec::<i64>::new(), &0), TraceStep::Absorbed);
}

#[test]
fn trace_step_miss_is_background() {
    assert_eq!(trace_step(100, &vec![-1.0f64, -1.0, 0.0], &0.0), TraceStep::Background);
}

#[test]
fn trace_step_hit_bounces() {
    assert_eq!(trace_step(1, &vec![3i64, 2, 2], &0), TraceStep::Bounce(1));
}

#[test]
fn sphere_quadratic_coefficients() {
    // Unit sphere at z = 5, ray from the origin along +z: t^2 - 10t + 24 = 0.
    let s = Sphere::new(0i64, 0, 5, 1);
    let ray = Ray::new(Vec3 { x: 0, y: 0, z: 0 }, Vec3 { x: 0, y: 0, z: 1 });
    assert_eq!(s.quadratic(&ray), (1, -10, 4));
    assert_eq!(s.center, Vec3 { x: 0, y: 0, z: 5 });
    assert_eq!(s.radius, 1);
}

#[test]
fn sphere_quadratic_float_nearest_root() {
    let s = Sphere::new(0.0f64, 0.0, 3.0, 0.5);
    let ray = Ray::new(Vec3 { x: 0.0, y: 0.0, z: 0.0 }, Vec3 { x: 0.0, y: 0.0, z: 2.0 });
    let (a, b, disc) = s.quadratic(&ray);
    assert_eq!((a, b, disc), (4.0, -12.0, 4.0));
    let t = (-b - disc.sqrt()) / (2.0 * a);
    // The ray meets the sphere at z = 2.5, that is at t = 1.25 of a direction of length 2.
    assert_eq!(t, 1.25);
}

#[test]
fn sphere_quadratic_miss_has_negative_discriminant() {
    let s = Sphere::new(10i64, 0, 5, 1);
    let ray = Ray::new(Vec3 { x: 0, y: 0, z: 0 }, Vec3 { x: 0, y: 0, z: 1 });
    let (_, _, disc) = s.quadratic(&ray);
    assert!(disc < 0);
}

#[test]
fn sphere_hit_ray_is_contact_and_normal() {
    let s = Sphere::new(0i64, 0, 5, 1);
    let ray = Ray::new(Vec3 { x: 0, y: 1, z: 0 }, Vec3 { x: 0, y: 0, z: 2 });
    let hit = s.hit_at(&ray, 2);
    assert_eq!(hit.origin, Vec3 { x: 0, y: 1, z: 4 });
    assert_eq!(hit.direction, Vec3 { x: 0, y: 1, z: -1 });
}
