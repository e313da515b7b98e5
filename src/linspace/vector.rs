use crate::element::{combine2, combine3, products_fit2, products_fit3, Element};
use vstd::prelude::*;

verus! {

/// A vector of three-dimensional space, from the origin.
#[derive(Clone, Copy)]
pub struct Vector3D<N> {
    x: N,
    y: N,
    z: N,
}

impl<N> View for Vector3D<N> {
    type V = (N, N, N);

    closed spec fn view(&self) -> (N, N, N) {
        (self.x, self.y, self.z)
    }
}

impl<N: Copy> Vector3D<N> {
    /// The `x` coordinate.
    pub fn x(&self) -> (r: N)
        ensures
            r == self@.0,
    {
        self.x
    }

    /// The `y` coordinate.
    pub fn y(&self) -> (r: N)
        ensures
            r == self@.1,
    {
        self.y
    }

    /// The `z` coordinate.
    pub fn z(&self) -> (r: N)
        ensures
            r == self@.2,
    {
        self.z
    }

    /// Replaces the `x` coordinate.
    pub fn set_x(&mut self, new_x: N)
        ensures
            final(self)@ == (new_x, old(self)@.1, old(self)@.2),
    {
        self.x = new_x;
    }

    /// Replaces the `y` coordinate.
    pub fn set_y(&mut self, new_y: N)
        ensures
            final(self)@ == (old(self)@.0, new_y, old(self)@.2),
    {
        self.y = new_y;
    }

    /// Replaces the `z` coordinate.
    pub fn set_z(&mut self, new_z: N)
        ensures
            final(self)@ == (old(self)@.0, old(self)@.1, new_z),
    {
        self.z = new_z;
    }

    /// Replaces every component.
    pub fn set(&mut self, new_x: N, new_y: N, new_z: N)
        ensures
            final(self)@ == (new_x, new_y, new_z),
    {
        self.x = new_x;
        self.y = new_y;
        self.z = new_z;
    }

    /// A vector with the given coordinates.
    pub fn init(x: N, y: N, z: N) -> (r: Vector3D<N>)
        ensures
            r@ == (x, y, z),
    {
        Vector3D { x, y, z }
    }
}

impl<N: Element> Vector3D<N> {
    /// The zero vector.
    pub fn new() -> (r: Vector3D<N>)
        ensures
            r@.0.as_int() == 0,
            r@.1.as_int() == 0,
            r@.2.as_int() == 0,
    {
        Vector3D { x: N::zero(), y: N::zero(), z: N::zero() }
    }

    /// Every coordinate multiplied by `scalar`.
    pub fn scale(self, scalar: N) -> (r: Vector3D<N>)
        requires
            N::fits(self@.0.as_int() * scalar.as_int()),
            N::fits(self@.1.as_int() * scalar.as_int()),
            N::fits(self@.2.as_int() * scalar.as_int()),
        ensures
            r@.0.as_int() == self@.0.as_int() * scalar.as_int(),
            r@.1.as_int() == self@.1.as_int() * scalar.as_int(),
            r@.2.as_int() == self@.2.as_int() * scalar.as_int(),
    {
        Vector3D { x: self.x.times(scalar), y: self.y.times(scalar), z: self.z.times(scalar) }
    }

    /// The coordinate-wise product with `other`.
    pub fn scale_vec(self, other: &Vector3D<N>) -> (r: Vector3D<N>)
        requires
            N::fits(self@.0.as_int() * other@.0.as_int()),
            N::fits(self@.1.as_int() * other@.1.as_int()),
            N::fits(self@.2.as_int() * other@.2.as_int()),
        ensures
            r@.0.as_int() == self@.0.as_int() * other@.0.as_int(),
            r@.1.as_int() == self@.1.as_int() * other@.1.as_int(),
            r@.2.as_int() == self@.2.as_int() * other@.2.as_int(),
    {
        Vector3D { x: self.x.times(other.x), y: self.y.times(other.y), z: self.z.times(other.z) }
    }

    /// The coordinate-wise sum.
    pub fn add(self, other: Vector3D<N>) -> (r: Vector3D<N>)
        requires
            N::fits(self@.0.as_int() + other@.0.as_int()),
            N::fits(self@.1.as_int() + other@.1.as_int()),
            N::fits(self@.2.as_int() + other@.2.as_int()),
        ensures
            r@.0.as_int() == self@.0.as_int() + other@.0.as_int(),
            r@.1.as_int() == self@.1.as_int() + other@.1.as_int(),
            r@.2.as_int() == self@.2.as_int() + other@.2.as_int(),
    {
        Vector3D { x: self.x.plus(other.x), y: self.y.plus(other.y), z: self.z.plus(other.z) }
    }

    /// The coordinate-wise difference.
    pub fn sub(self, other: Vector3D<N>) -> (r: Vector3D<N>)
        requires
            N::fits(self@.0.as_int() - other@.0.as_int()),
            N::fits(self@.1.as_int() - other@.1.as_int()),
            N::fits(self@.2.as_int() - other@.2.as_int()),
        ensures
            r@.0.as_int() == self@.0.as_int() - other@.0.as_int(),
            r@.1.as_int() == self@.1.as_int() - other@.1.as_int(),
            r@.2.as_int() == self@.2.as_int() - other@.2.as_int(),
    {
        Vector3D { x: self.x.minus(other.x), y: self.y.minus(other.y), z: self.z.minus(other.z) }
    }

    /// The coordinate-wise product.
    pub fn mul(self, other: Vector3D<N>) -> (r: Vector3D<N>)
        requires
            N::fits(self@.0.as_int() * other@.0.as_int()),
            N::fits(self@.1.as_int() * other@.1.as_int()),
            N::fits(self@.2.as_int() * other@.2.as_int()),
        ensures
            r@.0.as_int() == self@.0.as_int() * other@.0.as_int(),
            r@.1.as_int() == self@.1.as_int() * other@.1.as_int(),
            r@.2.as_int() == self@.2.as_int() * other@.2.as_int(),
    {
        Vector3D { x: self.x.times(other.x), y: self.y.times(other.y), z: self.z.times(other.z) }
    }

    /// The opposite vector.
    pub fn neg(&self) -> (r: Vector3D<N>)
        requires
            N::fits(-self@.0.as_int()),
            N::fits(-self@.1.as_int()),
            N::fits(-self@.2.as_int()),
        ensures
            r@.0.as_int() == -self@.0.as_int(),
            r@.1.as_int() == -self@.1.as_int(),
            r@.2.as_int() == -self@.2.as_int(),
    {
        Vector3D { x: self.x.negate(), y: self.y.negate(), z: self.z.negate() }
    }

    /// The cross product `first × second`.
    pub fn cross(first: &Vector3D<N>, second: &Vector3D<N>) -> (r: Vector3D<N>)
        requires
            products_fit2::<N>(first@.1.as_int() * second@.2.as_int(), first@.2.as_int() * second@.1.as_int(), false),
            products_fit2::<N>(first@.2.as_int() * second@.0.as_int(), first@.0.as_int() * second@.2.as_int(), false),
            products_fit2::<N>(first@.0.as_int() * second@.1.as_int(), first@.1.as_int() * second@.0.as_int(), false),
        ensures
            r@.0.as_int() == first@.1.as_int() * second@.2.as_int() - first@.2.as_int() * second@.1.as_int(),
            r@.1.as_int() == first@.2.as_int() * second@.0.as_int() - first@.0.as_int() * second@.2.as_int(),
            r@.2.as_int() == first@.0.as_int() * second@.1.as_int() - first@.1.as_int() * second@.0.as_int(),
    {
        let new_x: N = combine2(first.y, second.z, first.z, second.y, false);
        let new_y: N = combine2(first.z, second.x, first.x, second.z, false);
        let new_z: N = combine2(first.x, second.y, first.y, second.x, false);
        Vector3D { x: new_x, y: new_y, z: new_z }
    }

    /// The dot product, summed in coordinate order.
    pub fn dot(&self, other: &Vector3D<N>) -> (r: N)
        requires
            products_fit3::<N>(
                self@.0.as_int() * other@.0.as_int(),
                self@.1.as_int() * other@.1.as_int(),
                self@.2.as_int() * other@.2.as_int(),
                true,
                true,
            ),
        ensures
            r.as_int() == self@.0.as_int() * other@.0.as_int() + self@.1.as_int() * other@.1.as_int()
                + self@.2.as_int() * other@.2.as_int(),
    {
        combine3(self.x, other.x, self.y, other.y, self.z, other.z, true, true)
    }

    /// The largest coordinate.
    pub fn max(&self) -> (r: N)
        ensures
            r == self@.0 || r == self@.1 || r == self@.2,
            r.as_int() >= self@.0.as_int(),
            r.as_int() >= self@.1.as_int(),
            r.as_int() >= self@.2.as_int(),
    {
        if !self.y.greater(&self.x) && !self.z.greater(&self.x) {
            self.x
        } else if !self.z.greater(&self.y) {
            self.y
        } else {
            self.z
        }
    }

    /// The smallest coordinate.
    pub fn min(&self) -> (r: N)
        ensures
            r == self@.0 || r == self@.1 || r == self@.2,
            r.as_int() <= self@.0.as_int(),
            r.as_int() <= self@.1.as_int(),
            r.as_int() <= self@.2.as_int(),
    {
        if !self.x.greater(&self.y) && !self.x.greater(&self.z) {
            self.x
        } else if !self.y.greater(&self.z) {
            self.y
        } else {
            self.z
        }
    }
}

impl<N: Element> PartialEq for Vector3D<N> {
    fn eq(&self, other: &Vector3D<N>) -> (r: bool) {
        let r = self.x.equals(&other.x) && self.y.equals(&other.y) && self.z.equals(&other.z);
        proof {
            if r {
                N::lemma_injective(self.x, other.x);
                N::lemma_injective(self.y, other.y);
                N::lemma_injective(self.z, other.z);
            }
        }
        r
    }
}

impl<N: Element> vstd::std_specs::cmp::PartialEqSpecImpl for Vector3D<N> {
    open spec fn obeys_eq_spec() -> bool {
        true
    }

    open spec fn eq_spec(&self, other: &Vector3D<N>) -> bool {
        self@ == other@
    }
}

} // verus!
