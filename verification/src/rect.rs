//! Axis-aligned rectangles, and the cuboid made of six of them.

use crate::boundingbox::BoundingBox;
use crate::scalar::{Scalar, ONE_BITS};
use crate::vec3::Vec3;
use vstd::prelude::*;

verus! {

/// Bit pattern of `1e-4`: how far the box of a rectangle reaches to either
/// side of its plane.
pub const THICKNESS_BITS: u32 = 0x38d1_b717u32;

/// The plane of a rectangle and its extent: the bounds `(low, high)` on the
/// two axes of the plane and the coordinate on the third.
#[derive(Clone, Copy, Debug, PartialEq, Eq)]
#[allow(inconsistent_fields)]
pub enum Axes {
    XY { x: (Scalar, Scalar), y: (Scalar, Scalar), z: Scalar },
    XZ { x: (Scalar, Scalar), y: Scalar, z: (Scalar, Scalar) },
    YZ { x: Scalar, y: (Scalar, Scalar), z: (Scalar, Scalar) },
}

/// A rectangle in one of the three axis planes. Its normal points along the
/// third axis, or against it where `flip_normal` is set. The material is
/// named by its index in the scene's list of materials.
#[derive(Clone, Copy, Debug, PartialEq, Eq)]
pub struct Rect {
    pub a: Axes,
    pub flip_normal: bool,
    pub material: usize,
}

/// Whether `s` lies in the closed range from `low` to `high`.
pub open spec fn within(s: Scalar, low: Scalar, high: Scalar) -> bool {
    low.le_spec(s) && s.le_spec(high)
}

impl Axes {
    /// The axis on which the rectangle has one coordinate only.
    pub open spec fn fixed_axis_spec(self) -> int {
        match self {
            Axes::XY { .. } => 2,
            Axes::XZ { .. } => 1,
            Axes::YZ { .. } => 0,
        }
    }

    /// The coordinate of the plane on the fixed axis.
    pub open spec fn fixed_spec(self) -> Scalar {
        match self {
            Axes::XY { z, .. } => z,
            Axes::XZ { y, .. } => y,
            Axes::YZ { x, .. } => x,
        }
    }

    /// The two axes of the plane, the lower one first.
    pub open spec fn free_axes_spec(self) -> (int, int) {
        match self {
            Axes::XY { .. } => (0, 1),
            Axes::XZ { .. } => (0, 2),
            Axes::YZ { .. } => (1, 2),
        }
    }

    /// The bounds on the two axes of the plane, in the order of
    /// [`Axes::free_axes_spec`].
    pub open spec fn bounds_spec(self) -> ((Scalar, Scalar), (Scalar, Scalar)) {
        match self {
            Axes::XY { x, y, .. } => (x, y),
            Axes::XZ { x, z, .. } => (x, z),
            Axes::YZ { y, z, .. } => (y, z),
        }
    }

    pub fn fixed_axis(&self) -> (r: usize)
        ensures
            r == self.fixed_axis_spec(),
    {
        match self {
            Axes::XY { .. } => 2,
            Axes::XZ { .. } => 1,
            Axes::YZ { .. } => 0,
        }
    }

    pub fn fixed(&self) -> (r: Scalar)
        ensures
            r == self.fixed_spec(),
    {
        match self {
            Axes::XY { z, .. } => *z,
            Axes::XZ { y, .. } => *y,
            Axes::YZ { x, .. } => *x,
        }
    }

    pub fn free_axes(&self) -> (r: (usize, usize))
        ensures
            r.0 == self.free_axes_spec().0,
            r.1 == self.free_axes_spec().1,
    {
        match self {
            Axes::XY { .. } => (0, 1),
            Axes::XZ { .. } => (0, 2),
            Axes::YZ { .. } => (1, 2),
        }
    }

    pub fn bounds(&self) -> (r: ((Scalar, Scalar), (Scalar, Scalar)))
        ensures
            r == self.bounds_spec(),
    {
        match self {
            Axes::XY { x, y, .. } => (*x, *y),
            Axes::XZ { x, z, .. } => (*x, *z),
            Axes::YZ { y, z, .. } => (*y, *z),
        }
    }
}

impl Rect {
    /// Whether a ray that crosses the plane of the rectangle at parameter
    /// `t`, in the point with the coordinates `first` and `second` on the
    /// two axes of the plane, hits the rectangle within `[t_min, t_max]`:
    /// the parameter lies in the range and both coordinates within the
    /// bounds, the ends included.
    pub open spec fn accepts_spec(
        self,
        t: Scalar,
        first: Scalar,
        second: Scalar,
        t_min: Scalar,
        t_max: Scalar,
    ) -> bool {
        &&& within(t, t_min, t_max)
        &&& within(first, self.a.bounds_spec().0.0, self.a.bounds_spec().0.1)
        &&& within(second, self.a.bounds_spec().1.0, self.a.bounds_spec().1.1)
    }

    /// The normal of the rectangle: the unit vector along the fixed axis,
    /// with every sign flipped where the normal is flipped.
    pub open spec fn normal_spec(self) -> Vec3 {
        let zero = Scalar { bits: 0 };
        let one = Scalar { bits: ONE_BITS };
        let along = match self.a {
            Axes::XY { .. } => Vec3 { e0: zero, e1: zero, e2: one },
            Axes::XZ { .. } => Vec3 { e0: zero, e1: one, e2: zero },
            Axes::YZ { .. } => Vec3 { e0: one, e1: zero, e2: zero },
        };
        if self.flip_normal {
            along.neg_spec()
        } else {
            along
        }
    }

    /// Whether the lower bound is not above the upper bound on both axes
    /// of the plane.
    pub open spec fn in_order(self) -> bool {
        &&& self.a.bounds_spec().0.0.le_spec(self.a.bounds_spec().0.1)
        &&& self.a.bounds_spec().1.0.le_spec(self.a.bounds_spec().1.1)
    }

    /// The rectangle as a box without thickness.
    pub open spec fn flat_box(self) -> BoundingBox {
        self.bounding_box_spec(self.a.fixed_spec(), self.a.fixed_spec())
    }

    /// The box of the rectangle, given the two coordinates `below` and
    /// `above` between which the box lies on the fixed axis.
    pub open spec fn bounding_box_spec(self, below: Scalar, above: Scalar) -> BoundingBox {
        match self.a {
            Axes::XY { x, y, .. } => BoundingBox {
                min: Vec3 { e0: x.0, e1: y.0, e2: below },
                max: Vec3 { e0: x.1, e1: y.1, e2: above },
            },
            Axes::XZ { x, z, .. } => BoundingBox {
                min: Vec3 { e0: x.0, e1: below, e2: z.0 },
                max: Vec3 { e0: x.1, e1: above, e2: z.1 },
            },
            Axes::YZ { y, z, .. } => BoundingBox {
                min: Vec3 { e0: below, e1: y.0, e2: z.0 },
                max: Vec3 { e0: above, e1: y.1, e2: z.1 },
            },
        }
    }

    /// Whether the crossing of the plane at `t`, in the point `(first,
    /// second)` of the plane, is a hit within `[t_min, t_max]`. A crossing
    /// whose parameter or coordinates are not numbers is none.
    pub fn accepts(&self, t: Scalar, first: Scalar, second: Scalar, t_min: Scalar, t_max: Scalar) -> (r:
        bool)
        ensures
            r == self.accepts_spec(t, first, second, t_min, t_max),
            r ==> t_min.le_spec(t) && t.le_spec(t_max),
    {
        let bounds = self.a.bounds();
        t_min.le(t) && t.le(t_max) && bounds.0.0.le(first) && first.le(bounds.0.1) && bounds.1.0.le(
            second,
        ) && second.le(bounds.1.1)
    }

    /// The surface normal of the rectangle.
    pub fn normal(&self) -> (r: Vec3)
        ensures
            r == self.normal_spec(),
    {
        let zero = Scalar::zero();
        let one = Scalar::one();
        let along = match self.a {
            Axes::XY { .. } => Vec3::new(zero, zero, one),
            Axes::XZ { .. } => Vec3::new(zero, one, zero),
            Axes::YZ { .. } => Vec3::new(one, zero, zero),
        };
        if self.flip_normal {
            along.neg()
        } else {
            along
        }
    }

    /// How far the box of a rectangle reaches to either side of its plane,
    /// so that the slab test can meet it: `1e-4`.
    pub fn thickness() -> (r: Scalar)
        ensures
            r.bits == THICKNESS_BITS,
    {
        Scalar { bits: THICKNESS_BITS }
    }

    /// The bounding box of the rectangle. On the fixed axis, where the
    /// rectangle has no thickness, the box lies between `below` and
    /// `above`, which the caller puts at the distance of
    /// [`Rect::thickness`] to either side of the plane. With the plane
    /// between the two, and with bounds in order, the box is well formed
    /// and the rectangle lies in it.
    pub fn bounding_box(&self, below: Scalar, above: Scalar) -> (r: BoundingBox)
        ensures
            r == self.bounding_box_spec(below, above),
            r.min.at(self.a.fixed_axis_spec()) == below,
            r.max.at(self.a.fixed_axis_spec()) == above,
            self.in_order() && within(self.a.fixed_spec(), below, above) ==> r.wf() && r.encloses(
                self.flat_box(),
            ),
    {
        match self.a {
            Axes::XY { x, y, .. } => BoundingBox {
                min: Vec3::new(x.0, y.0, below),
                max: Vec3::new(x.1, y.1, above),
            },
            Axes::XZ { x, z, .. } => BoundingBox {
                min: Vec3::new(x.0, below, z.0),
                max: Vec3::new(x.1, above, z.1),
            },
            Axes::YZ { y, z, .. } => BoundingBox {
                min: Vec3::new(below, y.0, z.0),
                max: Vec3::new(above, y.1, z.1),
            },
        }
    }
}

/// A box with its faces along the axes, between the corners `p_min` and
/// `p_max`, made of six rectangles.
#[derive(Debug)]
pub struct Cuboid {
    pub p_min: Vec3,
    pub p_max: Vec3,
    pub faces: Vec<Rect>,
}

/// The six faces of the cuboid between `p_min` and `p_max`: for the planes
/// XY, XZ and YZ in turn, first the face at the upper corner with its normal
/// along the axis, then the face at the lower corner with its normal
/// flipped.
pub open spec fn cuboid_faces(p_min: Vec3, p_max: Vec3, material: usize) -> Seq<Rect> {
    let x = (p_min.e0, p_max.e0);
    let y = (p_min.e1, p_max.e1);
    let z = (p_min.e2, p_max.e2);
    seq![
        Rect { a: Axes::XY { x, y, z: p_max.e2 }, flip_normal: false, material },
        Rect { a: Axes::XY { x, y, z: p_min.e2 }, flip_normal: true, material },
        Rect { a: Axes::XZ { x, y: p_max.e1, z }, flip_normal: false, material },
        Rect { a: Axes::XZ { x, y: p_min.e1, z }, flip_normal: true, material },
        Rect { a: Axes::YZ { x: p_max.e0, y, z }, flip_normal: false, material },
        Rect { a: Axes::YZ { x: p_min.e0, y, z }, flip_normal: true, material },
    ]
}

impl Cuboid {
    /// The cuboid between the corners `p_min` and `p_max`, all of one
    /// material.
    pub fn new(p_min: Vec3, p_max: Vec3, material: usize) -> (r: Cuboid)
        ensures
            r.p_min == p_min,
            r.p_max == p_max,
            r.faces@ == cuboid_faces(p_min, p_max, material),
    {
        let x = (p_min.x(), p_max.x());
        let y = (p_min.y(), p_max.y());
        let z = (p_min.z(), p_max.z());
        let mut faces: Vec<Rect> = Vec::new();
        faces.push(Rect { a: Axes::XY { x, y, z: p_max.z() }, flip_normal: false, material });
        faces.push(Rect { a: Axes::XY { x, y, z: p_min.z() }, flip_normal: true, material });
        faces.push(Rect { a: Axes::XZ { x, y: p_max.y(), z }, flip_normal: false, material });
        faces.push(Rect { a: Axes::XZ { x, y: p_min.y(), z }, flip_normal: true, material });
        faces.push(Rect { a: Axes::YZ { x: p_max.x(), y, z }, flip_normal: false, material });
        faces.push(Rect { a: Axes::YZ { x: p_min.x(), y, z }, flip_normal: true, material });
        proof {
            assert(faces@ =~= cuboid_faces(p_min, p_max, material));
        }
        Cuboid { p_min, p_max, faces }
    }

    /// The bounding box of the cuboid: the cuboid itself.
    pub fn bounding_box(&self) -> (r: BoundingBox)
        ensures
            r == (BoundingBox { min: self.p_min, max: self.p_max }),
    {
        BoundingBox { min: self.p_min, max: self.p_max }
    }
}

/// Every face of a cuboid lies in the box of the cuboid: on its fixed axis
/// it has a coordinate of one of the two corners, and on the other two axes
/// the bounds of the cuboid.
pub proof fn lemma_cuboid_faces_on_box(p_min: Vec3, p_max: Vec3, material: usize, k: int)
    requires
        0 <= k < 6,
    ensures
        cuboid_faces(p_min, p_max, material).len() == 6,
        cuboid_faces(p_min, p_max, material)[k].material == material,
        cuboid_faces(p_min, p_max, material)[k].flip_normal == (k % 2 == 1),
        cuboid_faces(p_min, p_max, material)[k].a.fixed_axis_spec() == 2 - k / 2,
        cuboid_faces(p_min, p_max, material)[k].a.fixed_spec() == if k % 2 == 1 {
            p_min.at(2 - k / 2)
        } else {
            p_max.at(2 - k / 2)
        },
        cuboid_faces(p_min, p_max, material)[k].a.bounds_spec().0 == (
            p_min.at(cuboid_faces(p_min, p_max, material)[k].a.free_axes_spec().0),
            p_max.at(cuboid_faces(p_min, p_max, material)[k].a.free_axes_spec().0),
        ),
        cuboid_faces(p_min, p_max, material)[k].a.bounds_spec().1 == (
            p_min.at(cuboid_faces(p_min, p_max, material)[k].a.free_axes_spec().1),
            p_max.at(cuboid_faces(p_min, p_max, material)[k].a.free_axes_spec().1),
        ),
{
}

} // verus!
