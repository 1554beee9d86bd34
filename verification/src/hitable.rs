//! Hit records and the choice of the closest hit among several.

use crate::boundingbox::{surrounding_box, union_all, BoundingBox};
use crate::bvhnode::unwrapped;
use crate::scalar::Scalar;
use crate::vec3::Vec3;
use vstd::prelude::*;

verus! {

/// What is known of the place where a ray meets a surface: the ray
/// parameter `t`, the point `p`, the surface normal `n`, the surface
/// coordinates `(u, v)` and the material of the surface, named by its index
/// in the scene's list of materials.
#[derive(Clone, Copy, Debug, PartialEq, Eq, Structural)]
pub struct HitRecord {
    pub t: Scalar,
    pub p: Vec3,
    pub n: Vec3,
    pub u: Scalar,
    pub v: Scalar,
    pub material: usize,
}

/// Whether a hit, if there is one, has a number as its ray parameter.
pub open spec fn is_numeric_hit(hit: Option<HitRecord>) -> bool {
    hit is Some ==> !hit.unwrap().t.is_nan()
}

/// Whether `hit` is at least as close as `other`: there is no `other`, or
/// both exist and the parameter of `hit` is not the greater.
pub open spec fn at_least_as_close(hit: Option<HitRecord>, other: Option<HitRecord>) -> bool {
    other is Some ==> hit is Some && hit.unwrap().t.rank() <= other.unwrap().t.rank()
}

/// Of two hits the one with the smaller ray parameter; the second where the
/// first is not smaller; the only one where one is missing.
pub open spec fn closer_spec(first: Option<HitRecord>, second: Option<HitRecord>) -> Option<
    HitRecord,
> {
    match (first, second) {
        (Some(a), Some(b)) => if a.t.lt_spec(b.t) {
            first
        } else {
            second
        },
        (Some(_), None) => first,
        _ => second,
    }
}

/// The closer of two hits.
pub fn closer(first: Option<HitRecord>, second: Option<HitRecord>) -> (r: Option<HitRecord>)
    ensures
        r == closer_spec(first, second),
{
    match (first, second) {
        (Some(a), Some(b)) => if a.t.lt(b.t) {
            first
        } else {
            second
        },
        (Some(_), None) => first,
        _ => second,
    }
}

/// The closer of two hits is one of the two and at least as close as both.
pub proof fn lemma_closer_is_closest(first: Option<HitRecord>, second: Option<HitRecord>)
    requires
        is_numeric_hit(first),
        is_numeric_hit(second),
    ensures
        closer_spec(first, second) == first || closer_spec(first, second) == second,
        is_numeric_hit(closer_spec(first, second)),
        at_least_as_close(closer_spec(first, second), first),
        at_least_as_close(closer_spec(first, second), second),
{
}

/// Choosing the closer hit does not depend on how three hits are grouped.
pub proof fn lemma_closer_associative(
    a: Option<HitRecord>,
    b: Option<HitRecord>,
    c: Option<HitRecord>,
)
    requires
        is_numeric_hit(a),
        is_numeric_hit(b),
        is_numeric_hit(c),
    ensures
        closer_spec(closer_spec(a, b), c) == closer_spec(a, closer_spec(b, c)),
{
}

/// The closest hit found so far along a ray, and the parameter that a
/// further hit must not exceed.
#[derive(Clone, Copy, Debug, PartialEq, Eq, Structural)]
pub struct ClosestHit {
    pub limit: Scalar,
    pub record: Option<HitRecord>,
}

impl ClosestHit {
    /// Whether the limit is the parameter of the record, where there is
    /// one.
    pub open spec fn wf(self) -> bool {
        self.record is Some ==> self.record.unwrap().t == self.limit && !self.limit.is_nan()
    }

    /// Whether a hit counts: it lies at or below the limit.
    pub open spec fn admits(self, hit: Option<HitRecord>) -> bool {
        hit is Some && hit.unwrap().t.le_spec(self.limit)
    }

    /// The state after one more surface was tried: a hit at or below the
    /// limit becomes the record and its parameter the new limit; a miss
    /// changes nothing, nor does a hit beyond the limit.
    pub open spec fn offer_spec(self, hit: Option<HitRecord>) -> ClosestHit {
        if self.admits(hit) {
            ClosestHit { limit: hit.unwrap().t, record: hit }
        } else {
            self
        }
    }

    /// The state after the surfaces were tried one after the other.
    pub open spec fn offer_all(self, hits: Seq<Option<HitRecord>>) -> ClosestHit
        decreases hits.len(),
    {
        if hits.len() == 0 {
            self
        } else {
            self.offer_all(hits.drop_last()).offer_spec(hits.last())
        }
    }

    /// Nothing was hit yet; a hit has to lie at or below `t_max`.
    pub fn new(t_max: Scalar) -> (r: ClosestHit)
        ensures
            r == (ClosestHit { limit: t_max, record: None }),
            r.wf(),
    {
        ClosestHit { limit: t_max, record: None }
    }

    /// The parameter that the next hit must not exceed.
    pub fn limit(&self) -> (r: Scalar)
        ensures
            r == self.limit,
    {
        self.limit
    }

    /// Takes in the result of trying one more surface.
    pub fn offer(&mut self, hit: Option<HitRecord>)
        ensures
            *final(self) == old(self).offer_spec(hit),
            old(self).wf() ==> final(self).wf(),
    {
        match hit {
            Some(h) => {
                if h.t.le(self.limit) {
                    self.limit = h.t;
                    self.record = hit;
                }
            },
            None => {},
        }
    }

    /// The closest hit of all surfaces tried.
    pub fn finish(self) -> (r: Option<HitRecord>)
        ensures
            r == self.record,
    {
        self.record
    }
}

/// After any number of surfaces were tried, the record is at least as
/// close as every hit that was offered at or below the first limit, and as
/// the record from before. Either nothing has changed, or the record is
/// one of those hits and the limit its parameter.
pub proof fn lemma_offer_all_is_closest(start: ClosestHit, hits: Seq<Option<HitRecord>>)
    requires
        start.wf(),
    ensures
        start.offer_all(hits).wf(),
        forall|i: int|
            0 <= i < hits.len() && start.admits(#[trigger] hits[i]) ==> at_least_as_close(
                start.offer_all(hits).record,
                hits[i],
            ),
        at_least_as_close(start.offer_all(hits).record, start.record),
        start.offer_all(hits) == start || exists|i: int|
            0 <= i < hits.len() && start.admits(#[trigger] hits[i]) && start.offer_all(
                hits,
            ).record == hits[i],
        (forall|i: int| 0 <= i < hits.len() ==> !start.admits(#[trigger] hits[i]))
            ==> start.offer_all(hits) == start,
    decreases hits.len(),
{
    if hits.len() > 0 {
        let before = hits.drop_last();
        lemma_offer_all_is_closest(start, before);
        let mid = start.offer_all(before);
        let end = start.offer_all(hits);
        let last = hits.len() - 1;
        assert(end == mid.offer_spec(hits[last]));
        assert forall|i: int| 0 <= i < before.len() implies (#[trigger] hits[i]) == before[i] by {}
        if mid != start {
            let i = choose|i: int|
                0 <= i < before.len() && start.admits(#[trigger] before[i]) && mid.record
                    == before[i];
            assert(hits[i] == before[i]);
            assert(mid.limit.le_spec(start.limit));
        }
        assert forall|i: int|
            0 <= i < hits.len() && start.admits(#[trigger] hits[i]) implies at_least_as_close(
            end.record,
            hits[i],
        ) by {
            if i < last {
                assert(hits[i] == before[i]);
                assert(at_least_as_close(mid.record, before[i]));
            }
        }
        if end != start {
            if mid.admits(hits[last]) {
                assert(start.admits(hits[last]));
                assert(end.record == hits[last]);
            } else {
                let i = choose|i: int|
                    0 <= i < before.len() && start.admits(#[trigger] before[i]) && mid.record
                        == before[i];
                assert(hits[i] == before[i]);
                assert(start.admits(hits[i]) && end.record == hits[i]);
            }
        }
        if forall|i: int| 0 <= i < hits.len() ==> !start.admits(#[trigger] hits[i]) {
            assert forall|i: int| 0 <= i < before.len() implies !start.admits(
                #[trigger] before[i],
            ) by {
                assert(hits[i] == before[i]);
            }
            assert(!start.admits(hits[last]));
        }
    }
}

/// The box around a list of items, each given by its bounding box: the
/// union of all the boxes, taken from the first on. A list with an item that
/// has no box has none, and neither has the empty list.
pub fn list_bounding_box(boxes: &Vec<Option<BoundingBox>>) -> (r: Option<BoundingBox>)
    ensures
        r is Some <==> boxes@.len() > 0 && forall|i: int|
            0 <= i < boxes@.len() ==> boxes@[i] is Some,
        r is Some ==> r.unwrap() == union_all(unwrapped(boxes@)),
{
    let mut bbox: Option<BoundingBox> = None;
    let mut i: usize = 0;
    while i < boxes.len()
        invariant
            i <= boxes@.len(),
            bbox is Some <==> i > 0,
            forall|k: int| 0 <= k < i ==> boxes@[k] is Some,
            i > 0 ==> bbox.unwrap() == union_all(unwrapped(boxes@).take(i as int)),
        decreases boxes@.len() - i,
    {
        match boxes[i] {
            Some(item_box) => {
                proof {
                    let upto = unwrapped(boxes@).take(i + 1);
                    assert(upto.drop_last() =~= unwrapped(boxes@).take(i as int));
                    assert(upto.last() == item_box);
                }
                match bbox {
                    Some(so_far) => {
                        bbox = Some(surrounding_box(&so_far, &item_box));
                    },
                    None => {
                        bbox = Some(item_box);
                    },
                }
            },
            None => {
                return None;
            },
        }
        i = i + 1;
    }
    proof {
        assert(unwrapped(boxes@).take(i as int) =~= unwrapped(boxes@));
    }
    bbox
}

} // verus!
