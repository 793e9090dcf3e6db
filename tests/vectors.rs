use raytracer::vecs::{Ray, Vec3};

fn v(x: i64, y: i64, z: i64) -> Vec3<i64> {
    Vec3 { x, y, z }
}

#[test]
fn new_is_zero() {
    let z: Vec3<f64> = Vec3::new();
    assert_eq!(z, Vec3 { x: 0.0, y: 0.0, z: 0.0 });
    let zi: Vec3<i64> = Vec3::new();
    assert_eq!(zi, v(0, 0, 0));
}

#[test]
fn elementwise_operators() {
    assert_eq!(v(1, 2, 3) + v(10, 20, 30), v(11, 22, 33));
    assert_eq!(v(1, 2, 3) - v(10, 20, 30), v(-9, -18, -27));
    assert_eq!(v(1, -2, 3) * 4, v(4, -8, 12));
    assert_eq!(v(9, -8, 7) / 2, v(4, -4, 3));
}

#[test]
fn in_place_operators() {
    let mut a = v(1, 2, 3);
    a.add_assign(v(1, 1, 1));
    assert_eq!(a, v(2, 3, 4));
    a.sub_assign(v(2, 0, 1));
    assert_eq!(a, v(0, 3, 3));
    a.mul_assign(5);
    assert_eq!(a, v(0, 15, 15));
    a.div_assign(3);
    assert_eq!(a, v(0, 5, 5));
}

#[test]
fn float_operators() {
    let a = Vec3 { x: 0.5, y: 1.0, z: -2.0 };
    let b = Vec3 { x: 1.5, y: 2.0, z: 4.0 };
    assert_eq!(a + b, Vec3 { x: 2.0, y: 3.0, z: 2.0 });
    assert_eq!(b * 2.0, Vec3 { x: 3.0, y: 4.0, z: 8.0 });
    let mut c = b;
    c.div_assign(2.0);
    assert_eq!(c, Vec3 { x: 0.75, y: 1.0, z: 2.0 });
}

#[test]
fn dot_and_length_squared() {
    assert_eq!(Vec3::dot(&v(1, 2, 3), &v(4, -5, 6)), 4 - 10 + 18);
    assert_eq!(v(2, 3, 6).length_squared(), 49);
    assert_eq!(Vec3 { x: 3.0, y: 4.0, z: 0.0 }.length_squared(), 25.0);
}

#[test]
fn project_onto_axis() {
    // (3, 4, 5) onto the x axis scaled by 2: dot = 6, |b|^2 = 4, 6 / 4 = 1.
    assert_eq!(Vec3::project(&v(3, 4, 5), &v(2, 0, 0)), v(2, 0, 0));
    let p = Vec3::project(&Vec3 { x: 3.0, y: 4.0, z: 5.0 }, &Vec3 { x: 0.0, y: 2.0, z: 0.0 });
    assert_eq!(p, Vec3 { x: 0.0, y: 4.0, z: 0.0 });
}

#[test]
fn ray_at() {
    let r = Ray::new(v(1, 1, 1), v(0, 2, -1));
    assert_eq!(r.at(3), v(1, 7, -2));
    assert_eq!(r.origin, v(1, 1, 1));
    assert_eq!(r.direction, v(0, 2, -1));
}
