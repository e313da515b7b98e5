use crate::element::Element;
use vstd::prelude::*;

verus! {

/// A point of three-dimensional space.
#[derive(Clone, Copy)]
pub struct Point3D<N> {
    x: N,
    y: N,
    z: N,
}

impl<N> View for Point3D<N> {
    type V = (N, N, N);

    closed spec fn view(&self) -> (N, N, N) {
        (self.x, self.y, self.z)
    }
}

impl<N: Copy> Point3D<N> {
    /// The `x` coordinate.
    pub fn x(&self) -> (r: N)
        ensures
            r == self@.0,
    {
        self.x
    }

    /// The `y` coordinate.
    pub fn y(&self) -> (r: N)
        ensures
            r == self@.1,
    {
        self.y
    }

    /// The `z` coordinate.
    pub fn z(&self) -> (r: N)
        ensures
            r == self@.2,
    {
        self.z
    }

    /// Replaces the `x` coordinate.
    pub fn set_x(&mut self, new_x: N)
        ensures
            final(self)@ == (new_x, old(self)@.1, old(self)@.2),
    {
        self.x = new_x;
    }

    /// Replaces the `y` coordinate.
    pub fn set_y(&mut self, new_y: N)
        ensures
            final(self)@ == (old(self)@.0, new_y, old(self)@.2),
    {
        self.y = new_y;
    }

    /// Replaces the `z` coordinate.
    pub fn set_z(&mut self, new_z: N)
        ensures
            final(self)@ == (old(self)@.0, old(self)@.1, new_z),
    {
        self.z = new_z;
    }

    /// Replaces every component.
    pub fn set(&mut self, new_x: N, new_y: N, new_z: N)
        ensures
            final(self)@ == (new_x, new_y, new_z),
    {
        self.x = new_x;
        self.y = new_y;
        self.z = new_z;
    }

    /// A point at the given coordinates.
    pub fn init_with_values(x: N, y: N, z: N) -> (r: Point3D<N>)
        ensures
            r@ == (x, y, z),
    {
        Point3D { x, y, z }
    }
}

impl<N: Element> Point3D<N> {
    /// The origin.
    pub fn init() -> (r: Point3D<N>)
        ensures
            r@.0.as_int() == 0,
            r@.1.as_int() == 0,
            r@.2.as_int() == 0,
    {
        Point3D { x: N::zero(), y: N::zero(), z: N::zero() }
    }
}

impl<N: Element> PartialEq for Point3D<N> {
    fn eq(&self, other: &Point3D<N>) -> (r: bool) {
        let r = self.x.equals(&other.x) && self.y.equals(&other.y) && self.z.equals(&other.z);
        proof {
            if r {
                N::lemma_injective(self.x, other.x);
                N::lemma_injective(self.y, other.y);
                N::lemma_injective(self.z, other.z);
            }
        }
        r
    }
}

impl<N: Element> vstd::std_specs::cmp::PartialEqSpecImpl for Point3D<N> {
    open spec fn obeys_eq_spec() -> bool {
        true
    }

    open spec fn eq_spec(&self, other: &Point3D<N>) -> bool {
        self@ == other@
    }
}

} // verus!
