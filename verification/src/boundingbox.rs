//! Axis-aligned bounding boxes: their union and the slab test.

use crate::scalar::Scalar;
use crate::vec3::Vec3;
use vstd::prelude::*;

verus! {

/// An axis-aligned box, given by its smallest and its largest corner.
#[derive(Clone, Copy, Debug, PartialEq, Eq, Structural)]
pub struct BoundingBox {
    pub min: Vec3,
    pub max: Vec3,
}

impl BoundingBox {
    /// Position of the lower face along `axis`.
    pub open spec fn lo(self, axis: int) -> int {
        self.min.at(axis).position()
    }

    /// Position of the upper face along `axis`.
    pub open spec fn hi(self, axis: int) -> int {
        self.max.at(axis).position()
    }

    /// A box is well formed when all six coordinates are numbers and no
    /// lower face lies above its upper face. A box of zero thickness is
    /// well formed.
    pub open spec fn wf(self) -> bool {
        &&& self.min.is_numeric()
        &&& self.max.is_numeric()
        &&& self.min.e0.le_spec(self.max.e0)
        &&& self.min.e1.le_spec(self.max.e1)
        &&& self.min.e2.le_spec(self.max.e2)
    }

    /// Whether `other` lies inside `self`: no face of `other` is outside
    /// the matching face of `self`, as numbers.
    pub open spec fn encloses(self, other: BoundingBox) -> bool {
        &&& self.min.e0.le_spec(other.min.e0)
        &&& self.min.e1.le_spec(other.min.e1)
        &&& self.min.e2.le_spec(other.min.e2)
        &&& other.max.e0.le_spec(self.max.e0)
        &&& other.max.e1.le_spec(self.max.e1)
        &&& other.max.e2.le_spec(self.max.e2)
    }

    /// The smallest box around two boxes: the lesser of the lower faces and
    /// the greater of the upper faces, axis by axis.
    pub open spec fn union_spec(self, other: BoundingBox) -> BoundingBox {
        BoundingBox {
            min: Vec3 {
                e0: self.min.e0.min_spec(other.min.e0),
                e1: self.min.e1.min_spec(other.min.e1),
                e2: self.min.e2.min_spec(other.min.e2),
            },
            max: Vec3 {
                e0: self.max.e0.max_spec(other.max.e0),
                e1: self.max.e1.max_spec(other.max.e1),
                e2: self.max.e2.max_spec(other.max.e2),
            },
        }
    }

    /// Executable test of [`BoundingBox::wf`].
    pub fn is_wf(&self) -> (r: bool)
        ensures
            r == self.wf(),
    {
        !self.min.e0.check_nan() && !self.min.e1.check_nan() && !self.min.e2.check_nan()
            && !self.max.e0.check_nan() && !self.max.e1.check_nan() && !self.max.e2.check_nan()
            && self.min.e0.le(self.max.e0) && self.min.e1.le(self.max.e1) && self.min.e2.le(
            self.max.e2,
        )
    }
}

/// The smallest box that holds both `box0` and `box1`.
pub fn surrounding_box(box0: &BoundingBox, box1: &BoundingBox) -> (r: BoundingBox)
    ensures
        r == box0.union_spec(*box1),
        box0.wf() && box1.wf() ==> r.wf() && r.encloses(*box0) && r.encloses(*box1),
{
    BoundingBox {
        min: Vec3::new(
            box0.min.x().min(box1.min.x()),
            box0.min.y().min(box1.min.y()),
            box0.min.z().min(box1.min.z()),
        ),
        max: Vec3::new(
            box0.max.x().max(box1.max.x()),
            box0.max.y().max(box1.max.y()),
            box0.max.z().max(box1.max.z()),
        ),
    }
}

/// The union of two well-formed boxes is well formed and encloses both: its
/// lower corner is at most either lower corner and its upper corner at least
/// either upper corner, in every component.
pub proof fn lemma_union_encloses(a: BoundingBox, b: BoundingBox)
    requires
        a.wf(),
        b.wf(),
    ensures
        a.union_spec(b).wf(),
        a.union_spec(b).encloses(a),
        a.union_spec(b).encloses(b),
{
}

/// The union does not depend on the order of its arguments.
pub proof fn lemma_union_commutative(a: BoundingBox, b: BoundingBox)
    requires
        a.wf(),
        b.wf(),
    ensures
        a.union_spec(b) == b.union_spec(a),
{
}

/// The union does not depend on how three boxes are grouped.
pub proof fn lemma_union_associative(a: BoundingBox, b: BoundingBox, c: BoundingBox)
    requires
        a.wf(),
        b.wf(),
        c.wf(),
    ensures
        a.union_spec(b).union_spec(c) == a.union_spec(b.union_spec(c)),
{
}

/// The union of a box with itself is that box.
pub proof fn lemma_union_idempotent(a: BoundingBox)
    requires
        a.wf(),
    ensures
        a.union_spec(a) == a,
{
}

/// The union of a non-empty list of boxes, taken from the first box on.
pub open spec fn union_all(boxes: Seq<BoundingBox>) -> BoundingBox
    recommends
        boxes.len() > 0,
    decreases boxes.len(),
{
    if boxes.len() <= 1 {
        boxes[0]
    } else {
        union_all(boxes.drop_last()).union_spec(boxes.last())
    }
}

/// Whether every box of the list is well formed.
pub open spec fn all_wf(boxes: Seq<BoundingBox>) -> bool {
    forall|i: int| 0 <= i < boxes.len() ==> (#[trigger] boxes[i]).wf()
}

/// Whether every member is an index into a list of `n` boxes.
pub open spec fn members_within(members: Seq<usize>, n: int) -> bool {
    forall|k: int| 0 <= k < members.len() ==> (#[trigger] members[k]) < n
}

/// Whether, along `axis`, the lower face of `b` is the lowest lower face
/// among the boxes that `members` picks from `boxes`.
pub open spec fn tight_lo(
    b: BoundingBox,
    boxes: Seq<BoundingBox>,
    members: Seq<usize>,
    axis: int,
) -> bool {
    &&& forall|k: int|
        0 <= k < members.len() ==> b.lo(axis) <= boxes[(#[trigger] members[k]) as int].lo(axis)
    &&& exists|k: int|
        0 <= k < members.len() && b.lo(axis) == boxes[(#[trigger] members[k]) as int].lo(axis)
}

/// Whether, along `axis`, the upper face of `b` is the highest upper face
/// among the boxes that `members` picks from `boxes`.
pub open spec fn tight_hi(
    b: BoundingBox,
    boxes: Seq<BoundingBox>,
    members: Seq<usize>,
    axis: int,
) -> bool {
    &&& forall|k: int|
        0 <= k < members.len() ==> b.hi(axis) >= boxes[(#[trigger] members[k]) as int].hi(axis)
    &&& exists|k: int|
        0 <= k < members.len() && b.hi(axis) == boxes[(#[trigger] members[k]) as int].hi(axis)
}

/// Whether `b` is the hull of the boxes that `members` picks from `boxes`:
/// each face of `b` is the outermost of the members' faces on that side.
pub open spec fn is_hull(b: BoundingBox, boxes: Seq<BoundingBox>, members: Seq<usize>) -> bool {
    &&& tight_lo(b, boxes, members, 0) && tight_hi(b, boxes, members, 0)
    &&& tight_lo(b, boxes, members, 1) && tight_hi(b, boxes, members, 1)
    &&& tight_lo(b, boxes, members, 2) && tight_hi(b, boxes, members, 2)
}

/// The list `0, 1, .., n - 1`.
pub open spec fn identity_order(n: nat) -> Seq<usize> {
    Seq::new(n, |i: int| i as usize)
}

/// A set of members has at most one hull.
pub proof fn lemma_hull_unique(
    a: BoundingBox,
    b: BoundingBox,
    boxes: Seq<BoundingBox>,
    members: Seq<usize>,
)
    requires
        is_hull(a, boxes, members),
        is_hull(b, boxes, members),
    ensures
        a == b,
{
    crate::scalar::lemma_position_injective(a.min.e0, b.min.e0);
    crate::scalar::lemma_position_injective(a.min.e1, b.min.e1);
    crate::scalar::lemma_position_injective(a.min.e2, b.min.e2);
    crate::scalar::lemma_position_injective(a.max.e0, b.max.e0);
    crate::scalar::lemma_position_injective(a.max.e1, b.max.e1);
    crate::scalar::lemma_position_injective(a.max.e2, b.max.e2);
}

/// The hull of well-formed boxes is well formed.
pub proof fn lemma_hull_wf(b: BoundingBox, boxes: Seq<BoundingBox>, members: Seq<usize>)
    requires
        is_hull(b, boxes, members),
        all_wf(boxes),
        members_within(members, boxes.len() as int),
    ensures
        b.wf(),
{
    assert forall|axis: int| 0 <= axis < 3 implies !(#[trigger] b.min.at(axis)).is_nan()
        && !b.max.at(axis).is_nan() && b.min.at(axis).le_spec(b.max.at(axis)) by {
        assert(tight_lo(b, boxes, members, axis) && tight_hi(b, boxes, members, axis));
        let k = choose|k: int|
            0 <= k < members.len() && b.lo(axis) == boxes[(#[trigger] members[k]) as int].lo(axis);
        let j = choose|j: int|
            0 <= j < members.len() && b.hi(axis) == boxes[(#[trigger] members[j]) as int].hi(axis);
        let bk = boxes[members[k] as int];
        let bj = boxes[members[j] as int];
        assert(bk.wf() && bj.wf());
        crate::scalar::lemma_position_injective(b.min.at(axis), bk.min.at(axis));
        crate::scalar::lemma_position_injective(b.max.at(axis), bj.max.at(axis));
        assert(b.hi(axis) >= bk.hi(axis));
    }
    assert(!b.min.at(0).is_nan() && !b.min.at(1).is_nan() && !b.min.at(2).is_nan());
    assert(b.min.at(0).le_spec(b.max.at(0)));
    assert(b.min.at(1).le_spec(b.max.at(1)));
    assert(b.min.at(2).le_spec(b.max.at(2)));
}

/// The hull of a list of boxes encloses each of them.
pub proof fn lemma_hull_encloses(b: BoundingBox, boxes: Seq<BoundingBox>, members: Seq<usize>, k: int)
    requires
        is_hull(b, boxes, members),
        all_wf(boxes),
        members_within(members, boxes.len() as int),
        0 <= k < members.len(),
    ensures
        b.wf(),
        b.encloses(boxes[members[k] as int]),
{
    lemma_hull_wf(b, boxes, members);
    let inner = boxes[members[k] as int];
    assert(inner.wf());
    assert forall|axis: int| 0 <= axis < 3 implies b.min.at(axis).le_spec(inner.min.at(axis))
        && inner.max.at(axis).le_spec(b.max.at(axis)) by {
        assert(tight_lo(b, boxes, members, axis) && tight_hi(b, boxes, members, axis));
        assert(b.lo(axis) <= boxes[members[k] as int].lo(axis));
        assert(b.hi(axis) >= boxes[members[k] as int].hi(axis));
        crate::scalar::lemma_position_refines_rank(b.min.at(axis), inner.min.at(axis));
        crate::scalar::lemma_position_refines_rank(inner.max.at(axis), b.max.at(axis));
    }
    assert(b.min.at(0).le_spec(inner.min.at(0)) && inner.max.at(0).le_spec(b.max.at(0)));
    assert(b.min.at(1).le_spec(inner.min.at(1)) && inner.max.at(1).le_spec(b.max.at(1)));
    assert(b.min.at(2).le_spec(inner.min.at(2)) && inner.max.at(2).le_spec(b.max.at(2)));
}

/// A box is the hull of itself alone.
pub proof fn lemma_hull_single(boxes: Seq<BoundingBox>, item: usize)
    requires
        item < boxes.len(),
    ensures
        is_hull(boxes[item as int], boxes, seq![item]),
{
    let m = seq![item];
    assert(m[0] == item);
}

/// The union of the hulls of two lists is the hull of the two lists joined.
pub proof fn lemma_hull_union(
    a: BoundingBox,
    ma: Seq<usize>,
    b: BoundingBox,
    mb: Seq<usize>,
    boxes: Seq<BoundingBox>,
)
    requires
        is_hull(a, boxes, ma),
        is_hull(b, boxes, mb),
        all_wf(boxes),
        members_within(ma, boxes.len() as int),
        members_within(mb, boxes.len() as int),
    ensures
        is_hull(a.union_spec(b), boxes, ma + mb),
{
    lemma_hull_wf(a, boxes, ma);
    lemma_hull_wf(b, boxes, mb);
    let u = a.union_spec(b);
    let m = ma + mb;
    assert forall|axis: int| 0 <= axis < 3 implies tight_lo(u, boxes, m, axis) && tight_hi(
        u,
        boxes,
        m,
        axis,
    ) by {
        assert(tight_lo(a, boxes, ma, axis) && tight_hi(a, boxes, ma, axis));
        assert(tight_lo(b, boxes, mb, axis) && tight_hi(b, boxes, mb, axis));
        assert(u.lo(axis) == if a.lo(axis) <= b.lo(axis) {
            a.lo(axis)
        } else {
            b.lo(axis)
        });
        assert(u.hi(axis) == if a.hi(axis) >= b.hi(axis) {
            a.hi(axis)
        } else {
            b.hi(axis)
        });
        assert forall|k: int| 0 <= k < m.len() implies u.lo(axis) <= boxes[(#[trigger] m[k]) as int].lo(
            axis,
        ) && u.hi(axis) >= boxes[m[k] as int].hi(axis) by {
            if k < ma.len() {
                assert(m[k] == ma[k]);
            } else {
                assert(m[k] == mb[k - ma.len()]);
            }
        }
        let ka = choose|k: int|
            0 <= k < ma.len() && a.lo(axis) == boxes[(#[trigger] ma[k]) as int].lo(axis);
        let kb = choose|k: int|
            0 <= k < mb.len() && b.lo(axis) == boxes[(#[trigger] mb[k]) as int].lo(axis);
        assert(m[ka] == ma[ka] && m[kb + ma.len()] == mb[kb]);
        let ja = choose|k: int|
            0 <= k < ma.len() && a.hi(axis) == boxes[(#[trigger] ma[k]) as int].hi(axis);
        let jb = choose|k: int|
            0 <= k < mb.len() && b.hi(axis) == boxes[(#[trigger] mb[k]) as int].hi(axis);
        assert(m[ja] == ma[ja] && m[jb + ma.len()] == mb[jb]);
    }
    assert(tight_lo(u, boxes, m, 0) && tight_hi(u, boxes, m, 0));
    assert(tight_lo(u, boxes, m, 1) && tight_hi(u, boxes, m, 1));
    assert(tight_lo(u, boxes, m, 2) && tight_hi(u, boxes, m, 2));
}

/// A hull does not depend on the order in which its members are listed.
pub proof fn lemma_hull_permutation(
    b: BoundingBox,
    boxes: Seq<BoundingBox>,
    m1: Seq<usize>,
    m2: Seq<usize>,
)
    requires
        is_hull(b, boxes, m1),
        m1.to_multiset() == m2.to_multiset(),
    ensures
        is_hull(b, boxes, m2),
{
    broadcast use vstd::seq_lib::group_to_multiset_ensures;

    assert forall|x: usize| m1.contains(x) <==> m2.contains(x) by {
        assert(m1.contains(x) <==> m1.to_multiset().count(x) > 0);
        assert(m2.contains(x) <==> m2.to_multiset().count(x) > 0);
    }
    assert forall|axis: int| 0 <= axis < 3 implies tight_lo(b, boxes, m2, axis) && tight_hi(
        b,
        boxes,
        m2,
        axis,
    ) by {
        assert(tight_lo(b, boxes, m1, axis) && tight_hi(b, boxes, m1, axis));
        assert forall|k: int| 0 <= k < m2.len() implies b.lo(axis) <= boxes[(#[trigger] m2[k]) as int].lo(
            axis,
        ) && b.hi(axis) >= boxes[m2[k] as int].hi(axis) by {
            assert(m2.contains(m2[k]));
            assert(m1.contains(m2[k]));
            let j = choose|j: int| 0 <= j < m1.len() && m1[j] == m2[k];
            assert(m1[j] == m2[k]);
        }
        let k1 = choose|k: int|
            0 <= k < m1.len() && b.lo(axis) == boxes[(#[trigger] m1[k]) as int].lo(axis);
        assert(m1.contains(m1[k1]));
        assert(m2.contains(m1[k1]));
        let k2 = choose|k: int| 0 <= k < m2.len() && m2[k] == m1[k1];
        assert(m2[k2] == m1[k1]);
        let j1 = choose|k: int|
            0 <= k < m1.len() && b.hi(axis) == boxes[(#[trigger] m1[k]) as int].hi(axis);
        assert(m1.contains(m1[j1]));
        assert(m2.contains(m1[j1]));
        let j2 = choose|k: int| 0 <= k < m2.len() && m2[k] == m1[j1];
        assert(m2[j2] == m1[j1]);
    }
    assert(tight_lo(b, boxes, m2, 0) && tight_hi(b, boxes, m2, 0));
    assert(tight_lo(b, boxes, m2, 1) && tight_hi(b, boxes, m2, 1));
    assert(tight_lo(b, boxes, m2, 2) && tight_hi(b, boxes, m2, 2));
}

/// The union of a whole list of well-formed boxes is the hull of all of
/// them.
pub proof fn lemma_union_all_is_hull(boxes: Seq<BoundingBox>)
    requires
        boxes.len() > 0,
        boxes.len() <= usize::MAX,
        all_wf(boxes),
    ensures
        is_hull(union_all(boxes), boxes, identity_order(boxes.len())),
        union_all(boxes).wf(),
{
    lemma_union_prefix_is_hull(boxes, boxes.len());
    assert(boxes.take(boxes.len() as int) =~= boxes);
    lemma_hull_wf(union_all(boxes), boxes, identity_order(boxes.len()));
}

/// The union of the first `n` boxes of a list is the hull of those `n`.
pub proof fn lemma_union_prefix_is_hull(boxes: Seq<BoundingBox>, n: nat)
    requires
        0 < n <= boxes.len(),
        boxes.len() <= usize::MAX,
        all_wf(boxes),
    ensures
        is_hull(union_all(boxes.take(n as int)), boxes, identity_order(n)),
    decreases n,
{
    let prefix = boxes.take(n as int);
    if n == 1 {
        lemma_hull_single(boxes, 0);
        assert(identity_order(1) =~= seq![0usize]);
        assert(prefix[0] == boxes[0]);
    } else {
        lemma_union_prefix_is_hull(boxes, (n - 1) as nat);
        assert(prefix.drop_last() =~= boxes.take(n - 1));
        assert(prefix.last() == boxes[n - 1]);
        lemma_hull_single(boxes, (n - 1) as usize);
        lemma_hull_union(
            union_all(boxes.take(n - 1)),
            identity_order((n - 1) as nat),
            boxes[n - 1],
            seq![(n - 1) as usize],
            boxes,
        );
        assert(identity_order((n - 1) as nat) + seq![(n - 1) as usize] =~= identity_order(n));
    }
}

/// What the slab test reads of one axis: the inverse of the ray's direction
/// component, and the ray parameters at which the ray crosses the plane of
/// the box's lower face (`t0`) and of its upper face (`t1`).
#[derive(Clone, Copy, Debug, PartialEq, Eq, Structural)]
pub struct Slab {
    pub inv_d: Scalar,
    pub t0: Scalar,
    pub t1: Scalar,
}

/// A parameter interval `(lo, hi)` of a ray.
#[derive(Clone, Copy, Debug, PartialEq, Eq, Structural)]
pub struct Interval {
    pub lo: Scalar,
    pub hi: Scalar,
}

impl Interval {
    /// An interval is empty when its upper end is at most its lower end.
    pub open spec fn is_empty(self) -> bool {
        self.hi.le_spec(self.lo)
    }
}

impl Slab {
    /// The parameter at which the ray enters the slab: the crossing of the
    /// upper face where the ray runs against the axis, else of the lower.
    pub open spec fn entry(self) -> Scalar {
        if self.inv_d.lt_spec(Scalar { bits: 0 }) {
            self.t1
        } else {
            self.t0
        }
    }

    /// The parameter at which the ray leaves the slab.
    pub open spec fn exit(self) -> Scalar {
        if self.inv_d.lt_spec(Scalar { bits: 0 }) {
            self.t0
        } else {
            self.t1
        }
    }

    /// The part of `within` that lies inside the slab.
    pub open spec fn clip_spec(self, within: Interval) -> Interval {
        Interval {
            lo: if within.lo.lt_spec(self.entry()) {
                self.entry()
            } else {
                within.lo
            },
            hi: if self.exit().lt_spec(within.hi) {
                self.exit()
            } else {
                within.hi
            },
        }
    }

    /// Narrows `within` to the part of it that lies inside the slab.
    pub fn clip(&self, within: Interval) -> (r: Interval)
        ensures
            r == self.clip_spec(within),
    {
        let backwards = self.inv_d.lt(Scalar::zero());
        let entry = if backwards {
            self.t1
        } else {
            self.t0
        };
        let exit = if backwards {
            self.t0
        } else {
            self.t1
        };
        Interval {
            lo: if entry.gt(within.lo) {
                entry
            } else {
                within.lo
            },
            hi: if exit.lt(within.hi) {
                exit
            } else {
                within.hi
            },
        }
    }
}

/// Whether a ray that crosses the three slabs `x`, `y`, `z` of a box meets
/// the box within `(t_min, t_max)`: the interval is narrowed by one slab
/// after the other, and the box is missed as soon as it becomes empty.
pub open spec fn slabs_hit_spec(x: Slab, y: Slab, z: Slab, t_min: Scalar, t_max: Scalar) -> bool {
    let after_x = x.clip_spec(Interval { lo: t_min, hi: t_max });
    let after_y = y.clip_spec(after_x);
    let after_z = z.clip_spec(after_y);
    !after_x.is_empty() && !after_y.is_empty() && !after_z.is_empty()
}

/// The slab test of a box against a ray, on the crossings of the three axes.
pub fn slabs_hit(x: &Slab, y: &Slab, z: &Slab, t_min: Scalar, t_max: Scalar) -> (r: bool)
    ensures
        r == slabs_hit_spec(*x, *y, *z, t_min, t_max),
{
    let after_x = x.clip(Interval { lo: t_min, hi: t_max });
    if after_x.hi.le(after_x.lo) {
        return false;
    }
    let after_y = y.clip(after_x);
    if after_y.hi.le(after_y.lo) {
        return false;
    }
    let after_z = z.clip(after_y);
    !after_z.hi.le(after_z.lo)
}

/// A slab never widens the interval it clips: a box that is hit within a
/// part of an interval is hit within the whole of it.
pub proof fn lemma_clip_narrows(s: Slab, within: Interval)
    requires
        !within.lo.is_nan(),
        !within.hi.is_nan(),
    ensures
        !s.clip_spec(within).lo.is_nan(),
        !s.clip_spec(within).hi.is_nan(),
        within.lo.le_spec(s.clip_spec(within).lo),
        s.clip_spec(within).hi.le_spec(within.hi),
{
}

/// Whether the slab `wide` lies around the slab `narrow`: the ray enters it
/// no later and leaves it no earlier.
pub open spec fn slab_around(wide: Slab, narrow: Slab) -> bool {
    wide.entry().le_spec(narrow.entry()) && narrow.exit().le_spec(wide.exit())
}

/// A ray that meets a box meets every box whose slabs lie around the slabs
/// of the first.
pub proof fn lemma_wider_slabs_are_hit(
    x: Slab,
    y: Slab,
    z: Slab,
    wide_x: Slab,
    wide_y: Slab,
    wide_z: Slab,
    t_min: Scalar,
    t_max: Scalar,
)
    requires
        !t_min.is_nan(),
        !t_max.is_nan(),
        slab_around(wide_x, x),
        slab_around(wide_y, y),
        slab_around(wide_z, z),
        slabs_hit_spec(x, y, z, t_min, t_max),
    ensures
        slabs_hit_spec(wide_x, wide_y, wide_z, t_min, t_max),
{
    let start = Interval { lo: t_min, hi: t_max };
    let a1 = x.clip_spec(start);
    let b1 = wide_x.clip_spec(start);
    assert(b1.lo.le_spec(a1.lo) && a1.hi.le_spec(b1.hi));
    let a2 = y.clip_spec(a1);
    let b2 = wide_y.clip_spec(b1);
    assert(b2.lo.le_spec(a2.lo) && a2.hi.le_spec(b2.hi));
    let a3 = z.clip_spec(a2);
    let b3 = wide_z.clip_spec(b2);
    assert(b3.lo.le_spec(a3.lo) && a3.hi.le_spec(b3.hi));
}

} // verus!
