//! Rotations: the inverse of a rotation matrix, and the box around a
//! rotated box.

use crate::boundingbox::BoundingBox;
use crate::scalar::{Scalar, MAX_BITS, SIGN_BIT};
use crate::vec3::Vec3;
use vstd::prelude::*;

verus! {

/// A rotation, given by the three rows of its matrix.
#[derive(Clone, Copy, Debug, PartialEq, Eq, Structural)]
pub struct RotationMatrix {
    pub r0: Vec3,
    pub r1: Vec3,
    pub r2: Vec3,
}

impl RotationMatrix {
    /// The matrix with rows and columns exchanged.
    pub open spec fn invert_spec(self) -> RotationMatrix {
        RotationMatrix {
            r0: Vec3 { e0: self.r0.e0, e1: self.r1.e0, e2: self.r2.e0 },
            r1: Vec3 { e0: self.r0.e1, e1: self.r1.e1, e2: self.r2.e1 },
            r2: Vec3 { e0: self.r0.e2, e1: self.r1.e2, e2: self.r2.e2 },
        }
    }

    /// The inverse rotation: the transposed matrix.
    pub fn invert(&self) -> (r: RotationMatrix)
        ensures
            r == self.invert_spec(),
            r.invert_spec() == *self,
    {
        RotationMatrix {
            r0: Vec3::new(self.r0.x(), self.r1.x(), self.r2.x()),
            r1: Vec3::new(self.r0.y(), self.r1.y(), self.r2.y()),
            r2: Vec3::new(self.r0.z(), self.r1.z(), self.r2.z()),
        }
    }
}

/// The corner `k` of a box, for `k` in `0..8`: the upper face along x where
/// `k` is 4 or more, along y where `k / 2` is odd, along z where `k` is odd,
/// and the lower face otherwise.
pub open spec fn corner_spec(b: BoundingBox, k: int) -> Vec3 {
    Vec3 {
        e0: if k / 4 == 1 {
            b.max.e0
        } else {
            b.min.e0
        },
        e1: if (k / 2) % 2 == 1 {
            b.max.e1
        } else {
            b.min.e1
        },
        e2: if k % 2 == 1 {
            b.max.e2
        } else {
            b.min.e2
        },
    }
}

/// The eight corners of a box.
pub fn corners(b: &BoundingBox) -> (r: Vec<Vec3>)
    ensures
        r@.len() == 8,
        forall|k: int| 0 <= k < 8 ==> #[trigger] r@[k] == corner_spec(*b, k),
{
    let mut out: Vec<Vec3> = Vec::new();
    out.push(Vec3::new(b.min.x(), b.min.y(), b.min.z()));
    out.push(Vec3::new(b.min.x(), b.min.y(), b.max.z()));
    out.push(Vec3::new(b.min.x(), b.max.y(), b.min.z()));
    out.push(Vec3::new(b.min.x(), b.max.y(), b.max.z()));
    out.push(Vec3::new(b.max.x(), b.min.y(), b.min.z()));
    out.push(Vec3::new(b.max.x(), b.min.y(), b.max.z()));
    out.push(Vec3::new(b.max.x(), b.max.y(), b.min.z()));
    out.push(Vec3::new(b.max.x(), b.max.y(), b.max.z()));
    out
}

/// The box that holds no point yet: its lower corner is the largest finite
/// value on every axis and its upper corner the smallest.
pub open spec fn empty_box() -> BoundingBox {
    let most = Scalar { bits: MAX_BITS };
    let least = Scalar { bits: (MAX_BITS + SIGN_BIT) as u32 };
    BoundingBox {
        min: Vec3 { e0: most, e1: most, e2: most },
        max: Vec3 { e0: least, e1: least, e2: least },
    }
}

/// The lower one of a face and a coordinate: the coordinate where it is the
/// smaller number.
pub open spec fn lower_spec(face: Scalar, s: Scalar) -> Scalar {
    if s.lt_spec(face) {
        s
    } else {
        face
    }
}

/// The upper one of a face and a coordinate: the coordinate where it is the
/// greater number.
pub open spec fn upper_spec(face: Scalar, s: Scalar) -> Scalar {
    if face.lt_spec(s) {
        s
    } else {
        face
    }
}

/// The box `b` grown, where it has to, to hold the point `p`.
pub open spec fn grow_spec(b: BoundingBox, p: Vec3) -> BoundingBox {
    BoundingBox {
        min: Vec3 {
            e0: lower_spec(b.min.e0, p.e0),
            e1: lower_spec(b.min.e1, p.e1),
            e2: lower_spec(b.min.e2, p.e2),
        },
        max: Vec3 {
            e0: upper_spec(b.max.e0, p.e0),
            e1: upper_spec(b.max.e1, p.e1),
            e2: upper_spec(b.max.e2, p.e2),
        },
    }
}

/// The box around a list of points: the empty box, grown by one point after
/// the other.
pub open spec fn around_points(points: Seq<Vec3>) -> BoundingBox
    decreases points.len(),
{
    if points.len() == 0 {
        empty_box()
    } else {
        grow_spec(around_points(points.drop_last()), points.last())
    }
}

/// Whether every component of `p` is a finite number.
pub open spec fn is_finite_point(p: Vec3) -> bool {
    p.e0.magnitude() <= MAX_BITS && p.e1.magnitude() <= MAX_BITS && p.e2.magnitude() <= MAX_BITS
}

/// The lower one of a face and a coordinate.
fn lower(face: Scalar, s: Scalar) -> (r: Scalar)
    ensures
        r == lower_spec(face, s),
{
    if s.lt(face) {
        s
    } else {
        face
    }
}

/// The upper one of a face and a coordinate.
fn upper(face: Scalar, s: Scalar) -> (r: Scalar)
    ensures
        r == upper_spec(face, s),
{
    if s.gt(face) {
        s
    } else {
        face
    }
}

/// Grows the box `b`, where it has to, to hold the point `p`.
pub fn grow(b: &BoundingBox, p: &Vec3) -> (r: BoundingBox)
    ensures
        r == grow_spec(*b, *p),
{
    BoundingBox {
        min: Vec3::new(lower(b.min.x(), p.x()), lower(b.min.y(), p.y()), lower(b.min.z(), p.z())),
        max: Vec3::new(upper(b.max.x(), p.x()), upper(b.max.y(), p.y()), upper(b.max.z(), p.z())),
    }
}

/// The smallest box along the axes that holds all the points: the box
/// around a rotated box, from its eight rotated corners.
pub fn bounding_points(points: &Vec<Vec3>) -> (r: BoundingBox)
    ensures
        r == around_points(points@),
{
    let most = Scalar::max_value();
    let least = Scalar::max_value().neg();
    let mut bbox = BoundingBox { min: Vec3::new(most, most, most), max: Vec3::new(least, least, least) };
    let mut i: usize = 0;
    while i < points.len()
        invariant
            i <= points@.len(),
            bbox == around_points(points@.take(i as int)),
        decreases points@.len() - i,
    {
        let p = points[i];
        proof {
            assert(points@.take(i + 1).drop_last() =~= points@.take(i as int));
            assert(points@.take(i + 1).last() == p);
        }
        bbox = grow(&bbox, &p);
        i = i + 1;
    }
    proof {
        assert(points@.take(i as int) =~= points@);
    }
    bbox
}

/// The box around a list of finite points holds every point of the list,
/// and where the list is not empty it is well formed.
pub proof fn lemma_around_points_holds_all(points: Seq<Vec3>)
    requires
        forall|k: int| 0 <= k < points.len() ==> is_finite_point(#[trigger] points[k]),
    ensures
        forall|k: int|
            0 <= k < points.len() ==> (BoundingBox {
                min: #[trigger] points[k],
                max: points[k],
            }).wf() && around_points(points).encloses(
                BoundingBox { min: points[k], max: points[k] },
            ),
        points.len() > 0 ==> around_points(points).wf(),
        is_finite_point(around_points(points).min),
        is_finite_point(around_points(points).max),
    decreases points.len(),
{
    if points.len() > 0 {
        let before = points.drop_last();
        assert forall|k: int| 0 <= k < before.len() implies is_finite_point(
            #[trigger] before[k],
        ) by {
            assert(before[k] == points[k]);
        }
        lemma_around_points_holds_all(before);
        let b = around_points(before);
        let p = points.last();
        assert(is_finite_point(p));
        assert forall|k: int| 0 <= k < points.len() implies (BoundingBox {
            min: #[trigger] points[k],
            max: points[k],
        }).wf() && around_points(points).encloses(
            BoundingBox { min: points[k], max: points[k] },
        ) by {
            assert(is_finite_point(points[k]));
            if k < before.len() {
                assert(before[k] == points[k]);
                assert(b.encloses(BoundingBox { min: before[k], max: before[k] }));
            }
        }
        if before.len() > 0 {
            assert(b.wf());
        }
    }
}

} // verus!
