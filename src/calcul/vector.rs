use crate::element::Element;
use vstd::prelude::*;

verus! {

/// A vector of three-dimensional space.
#[derive(Clone, Copy)]
pub struct Vector3D<N> {
    x: N,
    y: N,
    z: N,
}

impl<N> View for Vector3D<N> {
    type V = (N, N, N);

    closed spec fn view(&self) -> (N, N, N) {
        (self.x, self.y, self.z)
    }
}

impl<N: Copy> Vector3D<N> {
    /// The `x` coordinate.
    pub fn x(&self) -> (r: N)
        ensures
            r == self@.0,
    {
        self.x
    }

    /// The `y` coordinate.
    pub fn y(&self) -> (r: N)
        ensures
            r == self@.1,
    {
        self.y
    }

    /// The `z` coordinate.
    pub fn z(&self) -> (r: N)
        ensures
            r == self@.2,
    {
        self.z
    }

    /// Replaces the `x` coordinate.
    pub fn set_x(&mut self, new_x: N)
        ensures
            final(self)@ == (new_x, old(self)@.1, old(self)@.2),
    {
        self.x = new_x;
    }

    /// Replaces the `y` coordinate.
    pub fn set_y(&mut self, new_y: N)
        ensures
            final(self)@ == (old(self)@.0, new_y, old(self)@.2),
    {
        self.y = new_y;
    }

    /// Replaces the `z` coordinate.
    pub fn set_z(&mut self, new_z: N)
        ensures
            final(self)@ == (old(self)@.0, old(self)@.1, new_z),
    {
        self.z = new_z;
    }

    /// Replaces every component.
    pub fn set(&mut self, new_x: N, new_y: N, new_z: N)
        ensures
            final(self)@ == (new_x, new_y, new_z),
    {
        self.x = new_x;
        self.y = new_y;
        self.z = new_z;
    }

    /// A vector with the given coordinates.
    pub fn init_with_values(x: N, y: N, z: N) -> (r: Vector3D<N>)
        ensures
            r@ == (x, y, z),
    {
        Vector3D { x, y, z }
    }
}

impl<N: Element> Vector3D<N> {
    /// The zero vector.
    pub fn init() -> (r: Vector3D<N>)
        ensures
            r@.0.as_int() == 0,
            r@.1.as_int() == 0,
            r@.2.as_int() == 0,
    {
        Vector3D { x: N::zero(), y: N::zero(), z: N::zero() }
    }

    /// Every coordinate multiplied by `scalar`.
    pub fn scalar_mul(&self, scalar: N) -> (r: Vector3D<N>)
        requires
            N::fits(self@.0.as_int() * scalar.as_int()),
            N::fits(self@.1.as_int() * scalar.as_int()),
            N::fits(self@.2.as_int() * scalar.as_int()),
        ensures
            r@.0.as_int() == self@.0.as_int() * scalar.as_int(),
            r@.1.as_int() == self@.1.as_int() * scalar.as_int(),
            r@.2.as_int() == self@.2.as_int() * scalar.as_int(),
    {
        Vector3D { x: self.x.times(scalar), y: self.y.times(scalar), z: self.z.times(scalar) }
    }

    /// The coordinate-wise sum.
    pub fn add(self, other: Vector3D<N>) -> (r: Vector3D<N>)
        requires
            N::fits(self@.0.as_int() + other@.0.as_int()),
            N::fits(self@.1.as_int() + other@.1.as_int()),
            N::fits(self@.2.as_int() + other@.2.as_int()),
        ensures
            r@.0.as_int() == self@.0.as_int() + other@.0.as_int(),
            r@.1.as_int() == self@.1.as_int() + other@.1.as_int(),
            r@.2.as_int() == self@.2.as_int() + other@.2.as_int(),
    {
        Vector3D { x: self.x.plus(other.x), y: self.y.plus(other.y), z: self.z.plus(other.z) }
    }

    /// The coordinate-wise difference.
    pub fn sub(self, other: Vector3D<N>) -> (r: Vector3D<N>)
        requires
            N::fits(self@.0.as_int() - other@.0.as_int()),
            N::fits(self@.1.as_int() - other@.1.as_int()),
            N::fits(self@.2.as_int() - other@.2.as_int()),
        ensures
            r@.0.as_int() == self@.0.as_int() - other@.0.as_int(),
            r@.1.as_int() == self@.1.as_int() - other@.1.as_int(),
            r@.2.as_int() == self@.2.as_int() - other@.2.as_int(),
    {
        Vector3D { x: self.x.minus(other.x), y: self.y.minus(other.y), z: self.z.minus(other.z) }
    }

    /// The coordinate-wise product.
    pub fn mul(self, other: Vector3D<N>) -> (r: Vector3D<N>)
        requires
            N::fits(self@.0.as_int() * other@.0.as_int()),
            N::fits(self@.1.as_int() * other@.1.as_int()),
            N::fits(self@.2.as_int() * other@.2.as_int()),
        ensures
            r@.0.as_int() == self@.0.as_int() * other@.0.as_int(),
            r@.1.as_int() == self@.1.as_int() * other@.1.as_int(),
            r@.2.as_int() == self@.2.as_int() * other@.2.as_int(),
    {
        Vector3D { x: self.x.times(other.x), y: self.y.times(other.y), z: self.z.times(other.z) }
    }
}

} // verus!
