use crate::element::{combine4, products_fit4, Element};
use vstd::prelude::*;

verus! {

/// A quaternion: a vector part `(x, y, z)` and a rotation part `w`.
#[derive(Clone, Copy)]
pub struct Quat<N> {
    x: N,
    y: N,
    z: N,
    w: N,
}

impl<N> View for Quat<N> {
    type V = (N, N, N, N);

    closed spec fn view(&self) -> (N, N, N, N) {
        (self.x, self.y, self.z, self.w)
    }
}

impl<N: Copy> Quat<N> {
    /// A quaternion with the given components.
    pub fn init(x: N, y: N, z: N, w: N) -> (r: Quat<N>)
        ensures
            r@ == (x, y, z, w),
    {
        Quat { x, y, z, w }
    }

    /// The `x` coordinate.
    pub fn x(&self) -> (r: N)
        ensures
            r == self@.0,
    {
        self.x
    }

    /// The `y` coordinate.
    pub fn y(&self) -> (r: N)
        ensures
            r == self@.1,
    {
        self.y
    }

    /// The `z` coordinate.
    pub fn z(&self) -> (r: N)
        ensures
            r == self@.2,
    {
        self.z
    }

    /// The rotation component `w`.
    pub fn w(&self) -> (r: N)
        ensures
            r == self@.3,
    {
        self.w
    }

    /// Replaces the `x` coordinate.
    pub fn set_x(&mut self, new_x: N)
        ensures
            final(self)@ == (new_x, old(self)@.1, old(self)@.2, old(self)@.3),
    {
        self.x = new_x;
    }

    /// Replaces the `y` coordinate.
    pub fn set_y(&mut self, new_y: N)
        ensures
            final(self)@ == (old(self)@.0, new_y, old(self)@.2, old(self)@.3),
    {
        self.y = new_y;
    }

    /// Replaces the `z` coordinate.
    pub fn set_z(&mut self, new_z: N)
        ensures
            final(self)@ == (old(self)@.0, old(self)@.1, new_z, old(self)@.3),
    {
        self.z = new_z;
    }

    /// Replaces the rotation component `w`.
    pub fn set_w(&mut self, new_w: N)
        ensures
            final(self)@ == (old(self)@.0, old(self)@.1, old(self)@.2, new_w),
    {
        self.w = new_w;
    }

    /// Replaces every component.
    pub fn set(&mut self, new_x: N, new_y: N, new_z: N, new_w: N)
        ensures
            final(self)@ == (new_x, new_y, new_z, new_w),
    {
        self.x = new_x;
        self.y = new_y;
        self.z = new_z;
        self.w = new_w;
    }
}

impl<N: Element> Quat<N> {
    /// The zero quaternion.
    pub fn new() -> (r: Quat<N>)
        ensures
            r@.0.as_int() == 0,
            r@.1.as_int() == 0,
            r@.2.as_int() == 0,
            r@.3.as_int() == 0,
    {
        Quat { x: N::zero(), y: N::zero(), z: N::zero(), w: N::zero() }
    }

    /// Multiplies every component by `scalar`, in place.
    pub fn scale(&mut self, scalar: N)
        requires
            N::fits(old(self)@.0.as_int() * scalar.as_int()),
            N::fits(old(self)@.1.as_int() * scalar.as_int()),
            N::fits(old(self)@.2.as_int() * scalar.as_int()),
            N::fits(old(self)@.3.as_int() * scalar.as_int()),
        ensures
            final(self)@.0.as_int() == old(self)@.0.as_int() * scalar.as_int(),
            final(self)@.1.as_int() == old(self)@.1.as_int() * scalar.as_int(),
            final(self)@.2.as_int() == old(self)@.2.as_int() * scalar.as_int(),
            final(self)@.3.as_int() == old(self)@.3.as_int() * scalar.as_int(),
    {
        self.x = self.x.times(scalar);
        self.y = self.y.times(scalar);
        self.z = self.z.times(scalar);
        self.w = self.w.times(scalar);
    }

    /// The conjugate: the vector part negated, the rotation part kept.
    pub fn conjugate(&self) -> (r: Quat<N>)
        requires
            N::fits(-self@.0.as_int()),
            N::fits(-self@.1.as_int()),
            N::fits(-self@.2.as_int()),
        ensures
            r@.0.as_int() == -self@.0.as_int(),
            r@.1.as_int() == -self@.1.as_int(),
            r@.2.as_int() == -self@.2.as_int(),
            r@.3 == self@.3,
    {
        Quat { x: self.x.negate(), y: self.y.negate(), z: self.z.negate(), w: self.w }
    }

    /// The component-wise sum.
    pub fn add(self, other: Quat<N>) -> (r: Quat<N>)
        requires
            N::fits(self@.0.as_int() + other@.0.as_int()),
            N::fits(self@.1.as_int() + other@.1.as_int()),
            N::fits(self@.2.as_int() + other@.2.as_int()),
            N::fits(self@.3.as_int() + other@.3.as_int()),
        ensures
            r@.0.as_int() == self@.0.as_int() + other@.0.as_int(),
            r@.1.as_int() == self@.1.as_int() + other@.1.as_int(),
            r@.2.as_int() == self@.2.as_int() + other@.2.as_int(),
            r@.3.as_int() == self@.3.as_int() + other@.3.as_int(),
    {
        Quat { x: self.x.plus(other.x), y: self.y.plus(other.y), z: self.z.plus(other.z), w: self.w.plus(other.w) }
    }

    /// The component-wise difference.
    pub fn sub(self, other: Quat<N>) -> (r: Quat<N>)
        requires
            N::fits(self@.0.as_int() - other@.0.as_int()),
            N::fits(self@.1.as_int() - other@.1.as_int()),
            N::fits(self@.2.as_int() - other@.2.as_int()),
            N::fits(self@.3.as_int() - other@.3.as_int()),
        ensures
            r@.0.as_int() == self@.0.as_int() - other@.0.as_int(),
            r@.1.as_int() == self@.1.as_int() - other@.1.as_int(),
            r@.2.as_int() == self@.2.as_int() - other@.2.as_int(),
            r@.3.as_int() == self@.3.as_int() - other@.3.as_int(),
    {
        Quat { x: self.x.minus(other.x), y: self.y.minus(other.y), z: self.z.minus(other.z), w: self.w.minus(other.w) }
    }

    /// The opposite quaternion.
    pub fn neg(&self) -> (r: Quat<N>)
        requires
            N::fits(-self@.0.as_int()),
            N::fits(-self@.1.as_int()),
            N::fits(-self@.2.as_int()),
            N::fits(-self@.3.as_int()),
        ensures
            r@.0.as_int() == -self@.0.as_int(),
            r@.1.as_int() == -self@.1.as_int(),
            r@.2.as_int() == -self@.2.as_int(),
            r@.3.as_int() == -self@.3.as_int(),
    {
        Quat { x: self.x.negate(), y: self.y.negate(), z: self.z.negate(), w: self.w.negate() }
    }

    /// The Hamilton product `self * other`.
    pub fn mul(self, other: Quat<N>) -> (r: Quat<N>)
        requires
            products_fit4::<N>(
                self@.3.as_int() * other@.0.as_int(),
                self@.0.as_int() * other@.3.as_int(),
                self@.1.as_int() * other@.2.as_int(),
                self@.2.as_int() * other@.1.as_int(),
                true, true, false,
            ),
            products_fit4::<N>(
                self@.3.as_int() * other@.1.as_int(),
                self@.0.as_int() * other@.2.as_int(),
                self@.1.as_int() * other@.3.as_int(),
                self@.2.as_int() * other@.0.as_int(),
                false, true, true,
            ),
            products_fit4::<N>(
                self@.3.as_int() * other@.2.as_int(),
                self@.0.as_int() * other@.1.as_int(),
                self@.1.as_int() * other@.0.as_int(),
                self@.2.as_int() * other@.3.as_int(),
                true, false, true,
            ),
            products_fit4::<N>(
                self@.3.as_int() * other@.3.as_int(),
                self@.0.as_int() * other@.0.as_int(),
                self@.1.as_int() * other@.1.as_int(),
                self@.2.as_int() * other@.2.as_int(),
                false, false, false,
            ),
        ensures
            r@.0.as_int() == self@.3.as_int() * other@.0.as_int() + self@.0.as_int() * other@.3.as_int() + self@.1.as_int() * other@.2.as_int() - self@.2.as_int() * other@.1.as_int(),
            r@.1.as_int() == self@.3.as_int() * other@.1.as_int() - self@.0.as_int() * other@.2.as_int() + self@.1.as_int() * other@.3.as_int() + self@.2.as_int() * other@.0.as_int(),
            r@.2.as_int() == self@.3.as_int() * other@.2.as_int() + self@.0.as_int() * other@.1.as_int() - self@.1.as_int() * other@.0.as_int() + self@.2.as_int() * other@.3.as_int(),
            r@.3.as_int() == self@.3.as_int() * other@.3.as_int() - self@.0.as_int() * other@.0.as_int() - self@.1.as_int() * other@.1.as_int() - self@.2.as_int() * other@.2.as_int(),
    {
        let x: N = combine4(self.w, other.x, self.x, other.w, self.y, other.z, self.z, other.y, true, true, false);
        let y: N = combine4(self.w, other.y, self.x, other.z, self.y, other.w, self.z, other.x, false, true, true);
        let z: N = combine4(self.w, other.z, self.x, other.y, self.y, other.x, self.z, other.w, true, false, true);
        let w: N = combine4(self.w, other.w, self.x, other.x, self.y, other.y, self.z, other.z, false, false, false);
        Quat { x, y, z, w }
    }
}

} // verus!
