use crate::vecs::{dot_req, dot_spec, project_req, project_spec, zip_with, Color, Point, Ray, Vec3};
use core::ops::{Add, Div, Mul, Sub};
use vstd::prelude::*;
use vstd::std_specs::ops::{AddSpec, DivSpec, MulSpec, SubSpec};

verus! {

/// A purely specular surface. Each component is the reflectivity of one color
/// channel, in `[0, 1]` for a physical mirror.
pub type Mirror<T> = Vec3<T>;

/// `d` reflected about the normal `n`: `d - 2 * project(d, n)`. The normal
/// need not have unit length; the projection divides by its squared length.
pub open spec fn reflect_spec<T: Mul<Output = T> + Add<Output = T> + Sub<Output = T> + Div<Output = T> + Copy>(
    d: Point<T>,
    n: Point<T>,
) -> Point<T> {
    let p = project_spec(d, n);
    d.sub_spec(p.add_spec(p))
}

/// The operators that `reflect_spec` applies may be applied.
pub open spec fn reflect_req<T: Mul<Output = T> + Add<Output = T> + Sub<Output = T> + Div<Output = T> + Copy>(
    d: Point<T>,
    n: Point<T>,
) -> bool {
    let p = project_spec(d, n);
    &&& project_req(d, n)
    &&& p.add_req(p)
    &&& d.sub_req(p.add_spec(p))
}

/// `c` filtered channel by channel through the reflectivities `m`.
pub open spec fn tint_spec<T: Mul<Output = T>>(m: Mirror<T>, c: Color<T>) -> Color<T> {
    zip_with(c, m, |p: T, q: T| p.mul_spec(q))
}

impl<T: Mul<Output = T> + Add<Output = T> + Sub<Output = T> + Div<Output = T> + Copy> Vec3<T> {
    /// The ray leaving the surface after `incoming` struck it: it starts at
    /// the hit point `hit.origin` and runs along `incoming.direction`
    /// reflected about the surface normal `hit.direction`.
    pub fn reflection(&self, incoming: &Ray<T>, hit: &Ray<T>) -> (r: Ray<T>)
        requires
            T::obeys_add_spec(),
            T::obeys_mul_spec(),
            T::obeys_div_spec(),
            reflect_req(incoming.direction, hit.direction),
        ensures
            r.origin == hit.origin,
            T::obeys_sub_spec() ==> r.direction == reflect_spec(incoming.direction, hit.direction),
    {
        let normal = hit.direction;
        let par_part = Vec3::project(&incoming.direction, &normal);
        let new_dir = incoming.direction - (par_part + par_part);
        Ray { direction: new_dir, origin: hit.origin }
    }
}

impl<T: Mul<Output = T> + Copy> Vec3<T> {
    /// The light that leaves this mirror when `reflection_color` arrives
    /// along the reflected ray: each channel multiplied by its reflectivity.
    pub fn color(&self, reflection_color: &Color<T>) -> (r: Color<T>)
        requires
            reflection_color.x.mul_req(self.x),
            reflection_color.y.mul_req(self.y),
            reflection_color.z.mul_req(self.z),
        ensures
            T::obeys_mul_spec() ==> r == tint_spec(*self, *reflection_color),
    {
        Vec3 {
            x: reflection_color.x * self.x,
            y: reflection_color.y * self.y,
            z: reflection_color.z * self.z,
        }
    }
}

/// A sphere: its centre and its radius.
#[derive(Debug, Clone, Copy, PartialEq)]
pub struct Sphere<T> {
    pub center: Point<T>,
    pub radius: T,
}

/// The coefficients of `a t^2 + b t + c = 0`, whose roots are the parameters
/// `t` at which `ray` meets the sphere `sp`, given as `(a, b, b^2 - 4ac)`:
/// with `oc = origin - center`, `a = |direction|^2`,
/// `b = 2 dot(oc, direction)` and `c = |oc|^2 - radius^2`.
pub open spec fn quadratic_spec<T: Mul<Output = T> + Add<Output = T> + Sub<Output = T> + Copy>(
    sp: Sphere<T>,
    ray: Ray<T>,
) -> (T, T, T) {
    let oc = ray.origin.sub_spec(sp.center);
    let a = dot_spec(ray.direction, ray.direction);
    let half_b = dot_spec(oc, ray.direction);
    let b = half_b.add_spec(half_b);
    let c = dot_spec(oc, oc).sub_spec(sp.radius.mul_spec(sp.radius));
    let two_a = a.add_spec(a);
    let four_a = two_a.add_spec(two_a);
    (a, b, b.mul_spec(b).sub_spec(four_a.mul_spec(c)))
}

/// The operators that `quadratic_spec` applies may be applied.
pub open spec fn quadratic_req<T: Mul<Output = T> + Add<Output = T> + Sub<Output = T> + Copy>(
    sp: Sphere<T>,
    ray: Ray<T>,
) -> bool {
    let oc = ray.origin.sub_spec(sp.center);
    let a = dot_spec(ray.direction, ray.direction);
    let half_b = dot_spec(oc, ray.direction);
    let b = half_b.add_spec(half_b);
    let c = dot_spec(oc, oc).sub_spec(sp.radius.mul_spec(sp.radius));
    let two_a = a.add_spec(a);
    let four_a = two_a.add_spec(two_a);
    &&& ray.origin.sub_req(sp.center)
    &&& dot_req(ray.direction, ray.direction)
    &&& dot_req(oc, ray.direction)
    &&& dot_req(oc, oc)
    &&& half_b.add_req(half_b)
    &&& sp.radius.mul_req(sp.radius)
    &&& dot_spec(oc, oc).sub_req(sp.radius.mul_spec(sp.radius))
    &&& a.add_req(a)
    &&& two_a.add_req(two_a)
    &&& b.mul_req(b)
    &&& four_a.mul_req(c)
    &&& b.mul_spec(b).sub_req(four_a.mul_spec(c))
}

/// The ray from the point `origin + direction * t` of `ray` along the
/// outward normal of the sphere there, `point - center`, not normalized.
pub open spec fn hit_spec<T: Mul<Output = T> + Add<Output = T> + Sub<Output = T> + Copy>(
    sp: Sphere<T>,
    ray: Ray<T>,
    t: T,
) -> Ray<T> {
    let p = ray.origin.add_spec(ray.direction.mul_spec(t));
    Ray { origin: p, direction: p.sub_spec(sp.center) }
}

impl<T> Sphere<T> {
    pub fn new(x: T, y: T, z: T, r: T) -> (s: Self)
        ensures
            s.center == (Vec3 { x, y, z }),
            s.radius == r,
    {
        Sphere { center: Vec3 { x, y, z }, radius: r }
    }
}

impl<T: Mul<Output = T> + Add<Output = T> + Sub<Output = T> + Copy> Sphere<T> {
    /// `(a, b, b^2 - 4ac)` for the quadratic whose roots are where `ray`
    /// meets this sphere (see `quadratic_spec`). A negative discriminant
    /// means the line misses the sphere; otherwise the nearer root is
    /// `(-b - sqrt(discriminant)) / 2a`.
    pub fn quadratic(&self, ray: &Ray<T>) -> (r: (T, T, T))
        requires
            T::obeys_add_spec(),
            T::obeys_sub_spec(),
            T::obeys_mul_spec(),
            quadratic_req(*self, *ray),
        ensures
            r == quadratic_spec(*self, *ray),
    {
        let oc = ray.origin - self.center;
        let a = ray.direction.length_squared();
        let half_b = Vec3::dot(&oc, &ray.direction);
        let b = half_b + half_b;
        let c = oc.length_squared() - self.radius * self.radius;
        let two_a = a + a;
        let four_a = two_a + two_a;
        (a, b, b * b - four_a * c)
    }

    /// The hit ray at parameter `t` of `ray`: it starts at the point of
    /// contact and runs along the outward surface normal there.
    pub fn hit_at(&self, ray: &Ray<T>, t: T) -> (r: Ray<T>)
        requires
            T::obeys_add_spec(),
            T::obeys_mul_spec(),
            ray.direction.mul_req(t),
            ray.origin.add_req(ray.direction.mul_spec(t)),
            ray.origin.add_spec(ray.direction.mul_spec(t)).sub_req(self.center),
        ensures
            T::obeys_sub_spec() ==> r == hit_spec(*self, *ray, t),
    {
        let point_of_contact = ray.at(t);
        let normal = point_of_contact - self.center;
        Ray { origin: point_of_contact, direction: normal }
    }
}

} // verus!
