//! Triples of scalars: points, directions and colours.

use crate::scalar::Scalar;
use vstd::prelude::*;

verus! {

/// An ordered triple of scalars, read as a point, a direction or a colour.
#[derive(Clone, Copy, Debug, PartialEq, Eq, Structural)]
pub struct Vec3 {
    pub e0: Scalar,
    pub e1: Scalar,
    pub e2: Scalar,
}

impl Vec3 {
    /// The component at `i`, for `i` in `0..3`.
    pub open spec fn at(self, i: int) -> Scalar {
        if i == 0 {
            self.e0
        } else if i == 1 {
            self.e1
        } else {
            self.e2
        }
    }

    /// The triple with the component at `i` replaced by `s`.
    pub open spec fn with(self, i: int, s: Scalar) -> Vec3 {
        if i == 0 {
            Vec3 { e0: s, ..self }
        } else if i == 1 {
            Vec3 { e1: s, ..self }
        } else {
            Vec3 { e2: s, ..self }
        }
    }

    /// Whether every component is a number.
    pub open spec fn is_numeric(self) -> bool {
        !self.e0.is_nan() && !self.e1.is_nan() && !self.e2.is_nan()
    }

    /// The triple with the sign of every component flipped.
    pub open spec fn neg_spec(self) -> Vec3 {
        Vec3 { e0: self.e0.neg_spec(), e1: self.e1.neg_spec(), e2: self.e2.neg_spec() }
    }

    /// The triple of positive zeros.
    pub fn default() -> (r: Vec3)
        ensures
            r.e0.bits == 0 && r.e1.bits == 0 && r.e2.bits == 0,
    {
        Vec3 { e0: Scalar::zero(), e1: Scalar::zero(), e2: Scalar::zero() }
    }

    pub fn new(e0: Scalar, e1: Scalar, e2: Scalar) -> (r: Vec3)
        ensures
            r == (Vec3 { e0, e1, e2 }),
    {
        Vec3 { e0, e1, e2 }
    }

    pub fn x(&self) -> (r: Scalar)
        ensures
            r == self.e0,
    {
        self.e0
    }

    pub fn y(&self) -> (r: Scalar)
        ensures
            r == self.e1,
    {
        self.e1
    }

    pub fn z(&self) -> (r: Scalar)
        ensures
            r == self.e2,
    {
        self.e2
    }

    pub fn set_x(&mut self, s: Scalar)
        ensures
            *final(self) == old(self).with(0, s),
    {
        self.e0 = s;
    }

    pub fn set_y(&mut self, s: Scalar)
        ensures
            *final(self) == old(self).with(1, s),
    {
        self.e1 = s;
    }

    pub fn set_z(&mut self, s: Scalar)
        ensures
            *final(self) == old(self).with(2, s),
    {
        self.e2 = s;
    }

    /// Red channel: the first component.
    pub fn r(&self) -> (r: Scalar)
        ensures
            r == self.e0,
    {
        self.e0
    }

    /// Green channel: the second component.
    pub fn g(&self) -> (r: Scalar)
        ensures
            r == self.e1,
    {
        self.e1
    }

    /// Blue channel: the third component.
    pub fn b(&self) -> (r: Scalar)
        ensures
            r == self.e2,
    {
        self.e2
    }

    /// The component at index `i`.
    pub fn i(&self, i: usize) -> (r: Scalar)
        requires
            i < 3,
        ensures
            r == self.at(i as int),
    {
        if i == 0 {
            self.e0
        } else if i == 1 {
            self.e1
        } else {
            self.e2
        }
    }

    /// Replaces the component at index `i`.
    pub fn set_i(&mut self, i: usize, s: Scalar)
        requires
            i < 3,
        ensures
            *final(self) == old(self).with(i as int, s),
    {
        if i == 0 {
            self.e0 = s;
        } else if i == 1 {
            self.e1 = s;
        } else {
            self.e2 = s;
        }
    }

    /// The opposite vector: the sign of every component is flipped.
    pub fn neg(self) -> (r: Vec3)
        ensures
            r == self.neg_spec(),
    {
        Vec3 { e0: self.e0.neg(), e1: self.e1.neg(), e2: self.e2.neg() }
    }
}

impl core::ops::Neg for Vec3 {
    type Output = Vec3;

    /// The opposite vector, as `-v`.
    fn neg(self) -> (r: Vec3) {
        Vec3 { e0: self.e0.neg(), e1: self.e1.neg(), e2: self.e2.neg() }
    }
}

impl vstd::std_specs::ops::NegSpecImpl for Vec3 {
    open spec fn obeys_neg_spec() -> bool {
        true
    }

    open spec fn neg_req(self) -> bool {
        true
    }

    open spec fn neg_spec(self) -> Vec3 {
        Vec3 { e0: self.e0.neg_spec(), e1: self.e1.neg_spec(), e2: self.e2.neg_spec() }
    }
}

} // verus!
