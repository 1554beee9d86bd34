//! Participating media: the part of a ray that runs inside a boundary.

use crate::boundingbox::Interval;
use crate::hitable::HitRecord;
use crate::scalar::{Scalar, ONE_BITS};
use crate::vec3::Vec3;
use vstd::prelude::*;

verus! {

/// The part of the ray inside the boundary that counts for a query within
/// `[t_min, t_max]`, from the parameters at which the ray enters and leaves
/// the boundary: the entry is raised to `t_min` and the exit lowered to
/// `t_max`; if the entry then is not below the exit there is none; else the
/// entry is raised to zero, so that nothing behind the origin counts.
pub open spec fn span_inside_spec(
    entry: Scalar,
    exit: Scalar,
    t_min: Scalar,
    t_max: Scalar,
) -> Option<Interval> {
    let lo = entry.max_spec(t_min);
    let hi = exit.min_spec(t_max);
    if hi.le_spec(lo) {
        None
    } else {
        Some(Interval { lo: lo.max_spec(Scalar { bits: 0 }), hi })
    }
}

/// The part of a ray inside a medium that a query within `[t_min, t_max]`
/// has to look at, if there is one.
pub fn span_inside(entry: Scalar, exit: Scalar, t_min: Scalar, t_max: Scalar) -> (r: Option<
    Interval,
>)
    ensures
        r == span_inside_spec(entry, exit, t_min, t_max),
{
    let lo = entry.max(t_min);
    let hi = exit.min(t_max);
    if lo.ge(hi) {
        None
    } else {
        Some(Interval { lo: lo.max(Scalar::zero()), hi })
    }
}

/// The span inside a medium lies within the range of the query and does not
/// reach behind the origin of the ray.
pub proof fn lemma_span_inside_bounds(entry: Scalar, exit: Scalar, t_min: Scalar, t_max: Scalar)
    requires
        !t_min.is_nan(),
        !t_max.is_nan(),
        span_inside_spec(entry, exit, t_min, t_max) is Some,
    ensures
        t_min.le_spec(span_inside_spec(entry, exit, t_min, t_max).unwrap().lo),
        (Scalar { bits: 0 }).le_spec(span_inside_spec(entry, exit, t_min, t_max).unwrap().lo),
        span_inside_spec(entry, exit, t_min, t_max).unwrap().hi.le_spec(t_max),
        t_min.lt_spec(span_inside_spec(entry, exit, t_min, t_max).unwrap().hi),
{
}

/// What a ray does inside a medium: it is scattered where the distance
/// `free_flight` that was drawn for it is less than the length `inside` of
/// its way through the medium, and passes otherwise. The hit of a scattered
/// ray lies at the parameter `t` in the point `p`; it has the material of
/// the medium, the surface coordinates zero and the unit vector along x as
/// its normal, which stands for no direction in particular.
pub open spec fn medium_hit_spec(
    free_flight: Scalar,
    inside: Scalar,
    t: Scalar,
    p: Vec3,
    material: usize,
) -> Option<HitRecord> {
    if free_flight.lt_spec(inside) {
        let zero = Scalar { bits: 0 };
        Some(
            HitRecord {
                t,
                p,
                n: Vec3 { e0: Scalar { bits: ONE_BITS }, e1: zero, e2: zero },
                u: zero,
                v: zero,
                material,
            },
        )
    } else {
        None
    }
}

/// The hit of a ray inside a medium, if the ray is scattered there.
pub fn medium_hit(free_flight: Scalar, inside: Scalar, t: Scalar, p: Vec3, material: usize) -> (r:
    Option<HitRecord>)
    ensures
        r == medium_hit_spec(free_flight, inside, t, p, material),
        r is Some <==> free_flight.lt_spec(inside),
{
    if free_flight.lt(inside) {
        let zero = Scalar::zero();
        Some(
            HitRecord { t, p, n: Vec3::new(Scalar::one(), zero, zero), u: zero, v: zero, material },
        )
    } else {
        None
    }
}

} // verus!
