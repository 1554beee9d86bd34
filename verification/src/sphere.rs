//! Spheres: which root of the ray's quadratic is the hit.

use crate::scalar::Scalar;
use vstd::prelude::*;

verus! {

/// What the choice of a hit reads of the quadratic of a ray against a
/// sphere: its discriminant, and the ray parameters of the nearer and of the
/// farther crossing. The two parameters mean something only where the
/// discriminant is positive.
#[derive(Clone, Copy, Debug, PartialEq, Eq, Structural)]
pub struct Roots {
    pub discriminant: Scalar,
    pub near: Scalar,
    pub far: Scalar,
}

/// Whether `t` lies strictly between `t_min` and `t_max`.
pub open spec fn strictly_within(t: Scalar, t_min: Scalar, t_max: Scalar) -> bool {
    t.lt_spec(t_max) && t_min.lt_spec(t)
}

impl Roots {
    /// The parameter at which the ray hits the sphere within
    /// `(t_min, t_max)`: with a positive discriminant the nearer crossing if
    /// it lies strictly within the range, else the farther one if that
    /// does; none with a discriminant that is not positive.
    pub open spec fn select_spec(self, t_min: Scalar, t_max: Scalar) -> Option<Scalar> {
        if !(Scalar { bits: 0 }).lt_spec(self.discriminant) {
            None
        } else if strictly_within(self.near, t_min, t_max) {
            Some(self.near)
        } else if strictly_within(self.far, t_min, t_max) {
            Some(self.far)
        } else {
            None
        }
    }

    /// The ray parameter of the hit, if the ray hits the sphere within
    /// `(t_min, t_max)`. A ray that passes the sphere, one that only
    /// touches it, and one whose discriminant is not a number hit nothing.
    pub fn select(&self, t_min: Scalar, t_max: Scalar) -> (r: Option<Scalar>)
        ensures
            r == self.select_spec(t_min, t_max),
            !(Scalar { bits: 0 }).lt_spec(self.discriminant) ==> r is None,
            r is Some ==> strictly_within(r.unwrap(), t_min, t_max),
            r is Some ==> r.unwrap() == self.near || r.unwrap() == self.far,
    {
        if !self.discriminant.gt(Scalar::zero()) {
            None
        } else if self.near.lt(t_max) && self.near.gt(t_min) {
            Some(self.near)
        } else if self.far.lt(t_max) && self.far.gt(t_min) {
            Some(self.far)
        } else {
            None
        }
    }
}

/// A hit that is found below a limit is found below every greater limit
/// too, as long as the nearer crossing is not the farther one: lowering the
/// upper end of the range only ever loses hits.
pub proof fn lemma_select_monotone(roots: Roots, t_min: Scalar, t_max: Scalar, wider: Scalar)
    requires
        t_max.le_spec(wider),
        roots.near.le_spec(roots.far),
    ensures
        roots.select_spec(t_min, t_max) is Some ==> roots.select_spec(t_min, wider)
            == roots.select_spec(t_min, t_max),
{
}

} // verus!
