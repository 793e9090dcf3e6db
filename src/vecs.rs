use core::ops::{Add, Div, Mul, Sub};
use vstd::prelude::*;
use vstd::std_specs::ops::{AddSpec, DivSpec, MulSpec, SubSpec};

verus! {

/// A three-component value used both as a point or direction and as an RGB
/// color. All arithmetic is elementwise over the component type `T`; nothing
/// is ever normalized implicitly.
///
/// The contracts below are stated over the component type's own operator
/// specifications (`add_spec`, `mul_spec`, ...). A single elementwise
/// operation gives its exact result whenever the component type obeys its
/// specification (the integer types do); functions that chain operators
/// require that it does. Floating-point components run the same code, but
/// vstd gives their operators no such specification, so nothing about them
/// is proved here.
#[derive(Debug, Clone, Copy, PartialEq)]
pub struct Vec3<T> {
    pub x: T,
    pub y: T,
    pub z: T,
}

pub type Point<T> = Vec3<T>;

pub type Color<T> = Vec3<T>;

/// The components combined pairwise by `f`.
pub open spec fn zip_with<T>(a: Vec3<T>, b: Vec3<T>, f: spec_fn(T, T) -> T) -> Vec3<T> {
    Vec3 { x: f(a.x, b.x), y: f(a.y, b.y), z: f(a.z, b.z) }
}

/// Every component of `a` combined with the scalar `t` by `f`.
pub open spec fn map_scalar<T>(a: Vec3<T>, t: T, f: spec_fn(T, T) -> T) -> Vec3<T> {
    Vec3 { x: f(a.x, t), y: f(a.y, t), z: f(a.z, t) }
}

/// `a.x*b.x + a.y*b.y + a.z*b.z`, summed from the left.
pub open spec fn dot_spec<T: Mul<Output = T> + Add<Output = T>>(a: Vec3<T>, b: Vec3<T>) -> T {
    a.x.mul_spec(b.x).add_spec(a.y.mul_spec(b.y)).add_spec(a.z.mul_spec(b.z))
}

/// The operators that `dot_spec` applies may be applied.
pub open spec fn dot_req<T: Mul<Output = T> + Add<Output = T>>(a: Vec3<T>, b: Vec3<T>) -> bool {
    &&& a.x.mul_req(b.x)
    &&& a.y.mul_req(b.y)
    &&& a.z.mul_req(b.z)
    &&& a.x.mul_spec(b.x).add_req(a.y.mul_spec(b.y))
    &&& a.x.mul_spec(b.x).add_spec(a.y.mul_spec(b.y)).add_req(a.z.mul_spec(b.z))
}

/// The vector projection of `a` onto `b`: `b * (dot(a, b) / dot(b, b))`.
pub open spec fn project_spec<T: Mul<Output = T> + Add<Output = T> + Div<Output = T> + Copy>(
    a: Vec3<T>,
    b: Vec3<T>,
) -> Vec3<T> {
    b.mul_spec(dot_spec(a, b).div_spec(dot_spec(b, b)))
}

/// The operators that `project_spec` applies may be applied.
pub open spec fn project_req<T: Mul<Output = T> + Add<Output = T> + Div<Output = T> + Copy>(
    a: Vec3<T>,
    b: Vec3<T>,
) -> bool {
    &&& dot_req(a, b)
    &&& dot_req(b, b)
    &&& dot_spec(a, b).div_req(dot_spec(b, b))
    &&& b.mul_req(dot_spec(a, b).div_spec(dot_spec(b, b)))
}

impl<T: Add<Output = T>> vstd::std_specs::ops::AddSpecImpl for Vec3<T> {
    open spec fn obeys_add_spec() -> bool {
        T::obeys_add_spec()
    }

    open spec fn add_req(self, rhs: Vec3<T>) -> bool {
        &&& self.x.add_req(rhs.x)
        &&& self.y.add_req(rhs.y)
        &&& self.z.add_req(rhs.z)
    }

    open spec fn add_spec(self, rhs: Vec3<T>) -> Vec3<T> {
        zip_with(self, rhs, |p: T, q: T| p.add_spec(q))
    }
}

impl<T: Add<Output = T>> Add for Vec3<T> {
    type Output = Self;

    fn add(self, rhs: Vec3<T>) -> (r: Self::Output) {
        Vec3 { x: self.x + rhs.x, y: self.y + rhs.y, z: self.z + rhs.z }
    }
}

impl<T: Sub<Output = T>> vstd::std_specs::ops::SubSpecImpl for Vec3<T> {
    open spec fn obeys_sub_spec() -> bool {
        T::obeys_sub_spec()
    }

    open spec fn sub_req(self, rhs: Vec3<T>) -> bool {
        &&& self.x.sub_req(rhs.x)
        &&& self.y.sub_req(rhs.y)
        &&& self.z.sub_req(rhs.z)
    }

    open spec fn sub_spec(self, rhs: Vec3<T>) -> Vec3<T> {
        zip_with(self, rhs, |p: T, q: T| p.sub_spec(q))
    }
}

impl<T: Sub<Output = T>> Sub for Vec3<T> {
    type Output = Self;

    fn sub(self, rhs: Vec3<T>) -> (r: Self::Output) {
        Vec3 { x: self.x - rhs.x, y: self.y - rhs.y, z: self.z - rhs.z }
    }
}

impl<T: Mul<Output = T> + Copy> vstd::std_specs::ops::MulSpecImpl<T> for Vec3<T> {
    open spec fn obeys_mul_spec() -> bool {
        T::obeys_mul_spec()
    }

    open spec fn mul_req(self, rhs: T) -> bool {
        &&& self.x.mul_req(rhs)
        &&& self.y.mul_req(rhs)
        &&& self.z.mul_req(rhs)
    }

    open spec fn mul_spec(self, rhs: T) -> Vec3<T> {
        map_scalar(self, rhs, |p: T, q: T| p.mul_spec(q))
    }
}

impl<T: Mul<Output = T> + Copy> Mul<T> for Vec3<T> {
    type Output = Self;

    fn mul(self, rhs: T) -> (r: Self::Output) {
        Vec3 { x: self.x * rhs, y: self.y * rhs, z: self.z * rhs }
    }
}

impl<T: Div<Output = T> + Copy> vstd::std_specs::ops::DivSpecImpl<T> for Vec3<T> {
    open spec fn obeys_div_spec() -> bool {
        T::obeys_div_spec()
    }

    open spec fn div_req(self, rhs: T) -> bool {
        &&& self.x.div_req(rhs)
        &&& self.y.div_req(rhs)
        &&& self.z.div_req(rhs)
    }

    open spec fn div_spec(self, rhs: T) -> Vec3<T> {
        map_scalar(self, rhs, |p: T, q: T| p.div_spec(q))
    }
}

impl<T: Div<Output = T> + Copy> Div<T> for Vec3<T> {
    type Output = Self;

    fn div(self, rhs: T) -> (r: Self::Output) {
        Vec3 { x: self.x / rhs, y: self.y / rhs, z: self.z / rhs }
    }
}

impl<T: Default> Vec3<T> {
    /// The vector whose components are all `T::default()`: the zero vector,
    /// or black when used as a color.
    pub fn new() -> (r: Self)
        ensures
            T::default.ensures((), r.x),
            T::default.ensures((), r.y),
            T::default.ensures((), r.z),
    {
        Vec3 { x: T::default(), y: T::default(), z: T::default() }
    }
}

impl<T: Mul<Output = T> + Add<Output = T> + Copy> Vec3<T> {
    /// The dot product `v1.x*v2.x + v1.y*v2.y + v1.z*v2.z`.
    pub fn dot(v1: &Self, v2: &Self) -> (r: T)
        requires
            T::obeys_mul_spec(),
            T::obeys_add_spec(),
            dot_req(*v1, *v2),
        ensures
            r == dot_spec(*v1, *v2),
    {
        v1.x * v2.x + v1.y * v2.y + v1.z * v2.z
    }

    /// The squared Euclidean length, the dot product of the vector with itself.
    pub fn length_squared(&self) -> (r: T)
        requires
            T::obeys_mul_spec(),
            T::obeys_add_spec(),
            dot_req(*self, *self),
        ensures
            r == dot_spec(*self, *self),
    {
        Vec3::dot(self, self)
    }
}

impl<T: Mul<Output = T> + Add<Output = T> + Div<Output = T> + Copy> Vec3<T> {
    /// The vector projection of `v1` onto `v2`. `v2` must not have length
    /// zero where the component type's division forbids it.
    pub fn project(v1: &Self, v2: &Self) -> (r: Self)
        requires
            T::obeys_mul_spec(),
            T::obeys_add_spec(),
            T::obeys_div_spec(),
            project_req(*v1, *v2),
        ensures
            r == project_spec(*v1, *v2),
    {
        *v2 * (Vec3::dot(v1, v2) / v2.length_squared())
    }
}

impl<T: Add<Output = T> + Copy> Vec3<T> {
    /// In-place `+`.
    pub fn add_assign(&mut self, rhs: Vec3<T>)
        requires
            old(self).add_req(rhs),
        ensures
            T::obeys_add_spec() ==> *final(self) == old(self).add_spec(rhs),
    {
        *self = *self + rhs;
    }
}

impl<T: Sub<Output = T> + Copy> Vec3<T> {
    /// In-place `-`.
    pub fn sub_assign(&mut self, rhs: Vec3<T>)
        requires
            old(self).sub_req(rhs),
        ensures
            T::obeys_sub_spec() ==> *final(self) == old(self).sub_spec(rhs),
    {
        *self = *self - rhs;
    }
}

impl<T: Mul<Output = T> + Copy> Vec3<T> {
    /// In-place scaling by `t`.
    pub fn mul_assign(&mut self, t: T)
        requires
            old(self).mul_req(t),
        ensures
            T::obeys_mul_spec() ==> *final(self) == old(self).mul_spec(t),
    {
        *self = *self * t;
    }
}

impl<T: Div<Output = T> + Copy> Vec3<T> {
    /// In-place division of every component by `t`.
    pub fn div_assign(&mut self, t: T)
        requires
            old(self).div_req(t),
        ensures
            T::obeys_div_spec() ==> *final(self) == old(self).div_spec(t),
    {
        *self = *self / t;
    }
}

/// A half-line: an origin and a direction, which need not be of unit length.
#[derive(Debug, Clone, PartialEq)]
pub struct Ray<T> {
    pub origin: Point<T>,
    pub direction: Point<T>,
}

impl<T> Ray<T> {
    pub fn new(origin: Point<T>, direction: Point<T>) -> (r: Self)
        ensures
            r.origin == origin,
            r.direction == direction,
    {
        Ray { origin, direction }
    }
}

impl<T: Mul<Output = T> + Add<Output = T> + Copy> Ray<T> {
    /// The point `origin + direction * t`.
    pub fn at(&self, t: T) -> (r: Point<T>)
        requires
            T::obeys_mul_spec(),
            self.direction.mul_req(t),
            self.origin.add_req(self.direction.mul_spec(t)),
        ensures
            T::obeys_add_spec() ==> r == self.origin.add_spec(self.direction.mul_spec(t)),
    {
        self.origin + self.direction * t
    }
}

} // verus!
