//! The bounding volume hierarchy: a binary tree of boxes over the items of a
//! scene, built by sorting along an axis and splitting at the median.

use crate::boundingbox::{
    all_wf, identity_order, is_hull, lemma_hull_permutation, lemma_hull_single, lemma_hull_union,
    lemma_hull_unique, lemma_union_all_is_hull, members_within, surrounding_box, union_all,
    BoundingBox,
};
use rand::Rng;
use vstd::prelude::*;

verus! {

/// The number by which an item is sorted along `axis`: the rank of the lower
/// face of its box.
pub open spec fn axis_key(boxes: Seq<BoundingBox>, axis: int, item: usize) -> int {
    boxes[item as int].min.at(axis).rank()
}

/// Whether the keys along `axis` never fall from one item of the list to the
/// next.
pub open spec fn is_sorted_along(order: Seq<usize>, boxes: Seq<BoundingBox>, axis: int) -> bool {
    forall|i: int, j: int|
        0 <= i <= j < order.len() ==> axis_key(boxes, axis, #[trigger] order[i]) <= axis_key(
            boxes,
            axis,
            #[trigger] order[j],
        )
}

/// Where `item` enters a list: directly behind the last item whose key is at
/// most its own, and at the front if there is none.
pub open spec fn insert_point(
    order: Seq<usize>,
    item: usize,
    boxes: Seq<BoundingBox>,
    axis: int,
) -> int
    decreases order.len(),
{
    if order.len() == 0 {
        0
    } else if axis_key(boxes, axis, order.last()) <= axis_key(boxes, axis, item) {
        order.len() as int
    } else {
        insert_point(order.drop_last(), item, boxes, axis)
    }
}

/// The list sorted along `axis`, items with equal keys in the order in which
/// the list had them: each item in turn enters the sorted list of those
/// before it at its insert point.
pub open spec fn sorted_along(order: Seq<usize>, boxes: Seq<BoundingBox>, axis: int) -> Seq<usize>
    decreases order.len(),
{
    if order.len() == 0 {
        Seq::empty()
    } else {
        let before = sorted_along(order.drop_last(), boxes, axis);
        before.insert(insert_point(before, order.last(), boxes, axis), order.last())
    }
}

/// Every item from the insert point on has a greater key than the entering
/// item, and the item just before the point has not.
pub proof fn lemma_insert_point(order: Seq<usize>, item: usize, boxes: Seq<BoundingBox>, axis: int)
    ensures
        0 <= insert_point(order, item, boxes, axis) <= order.len(),
        forall|j: int|
            insert_point(order, item, boxes, axis) <= j < order.len() ==> axis_key(
                boxes,
                axis,
                #[trigger] order[j],
            ) > axis_key(boxes, axis, item),
        insert_point(order, item, boxes, axis) > 0 ==> axis_key(
            boxes,
            axis,
            order[insert_point(order, item, boxes, axis) - 1],
        ) <= axis_key(boxes, axis, item),
    decreases order.len(),
{
    if order.len() > 0 && axis_key(boxes, axis, order.last()) > axis_key(boxes, axis, item) {
        lemma_insert_point(order.drop_last(), item, boxes, axis);
        let p = insert_point(order.drop_last(), item, boxes, axis);
        assert forall|j: int| p <= j < order.len() implies axis_key(
            boxes,
            axis,
            #[trigger] order[j],
        ) > axis_key(boxes, axis, item) by {
            if j < order.len() - 1 {
                assert(order[j] == order.drop_last()[j]);
            }
        }
        if p > 0 {
            assert(order[p - 1] == order.drop_last()[p - 1]);
        }
    }
}

/// Sorting keeps the items and puts their keys in order.
pub proof fn lemma_sorted_along(order: Seq<usize>, boxes: Seq<BoundingBox>, axis: int)
    ensures
        sorted_along(order, boxes, axis).len() == order.len(),
        sorted_along(order, boxes, axis).to_multiset() == order.to_multiset(),
        is_sorted_along(sorted_along(order, boxes, axis), boxes, axis),
    decreases order.len(),
{
    broadcast use vstd::seq_lib::group_to_multiset_ensures;

    if order.len() == 0 {
        assert(sorted_along(order, boxes, axis) =~= order);
    } else {
        let item = order.last();
        let before = sorted_along(order.drop_last(), boxes, axis);
        lemma_sorted_along(order.drop_last(), boxes, axis);
        lemma_insert_point(before, item, boxes, axis);
        let p = insert_point(before, item, boxes, axis);
        let after = before.insert(p, item);
        vstd::seq_lib::to_multiset_insert(before, p, item);
        assert(order =~= order.drop_last().push(item));
        assert(order.to_multiset() =~= order.drop_last().to_multiset().insert(item));
        assert forall|i: int, j: int| 0 <= i <= j < after.len() implies axis_key(
            boxes,
            axis,
            #[trigger] after[i],
        ) <= axis_key(boxes, axis, #[trigger] after[j]) by {
            let ki = if i < p {
                before[i]
            } else if i == p {
                item
            } else {
                before[i - 1]
            };
            let kj = if j < p {
                before[j]
            } else if j == p {
                item
            } else {
                before[j - 1]
            };
            assert(after[i] == ki && after[j] == kj);
            if i < p {
                assert(axis_key(boxes, axis, before[i]) <= axis_key(boxes, axis, before[p - 1]));
            }
        }
    }
}

/// The list that holds `item` at its insert point in `order`.
pub open spec fn inserted(
    order: Seq<usize>,
    item: usize,
    boxes: Seq<BoundingBox>,
    axis: int,
) -> Seq<usize> {
    order.insert(insert_point(order, item, boxes, axis), item)
}

/// Two sorted lists in one: their items in the order of their keys, an item
/// of `left` before an item of `right` with the same key.
pub open spec fn merged_along(
    left: Seq<usize>,
    right: Seq<usize>,
    boxes: Seq<BoundingBox>,
    axis: int,
) -> Seq<usize>
    decreases left.len() + right.len(),
{
    if right.len() == 0 {
        left
    } else if left.len() == 0 {
        right
    } else if axis_key(boxes, axis, left.last()) > axis_key(boxes, axis, right.last()) {
        merged_along(left.drop_last(), right, boxes, axis).push(left.last())
    } else {
        merged_along(left, right.drop_last(), boxes, axis).push(right.last())
    }
}

/// An item enters a list behind its last item if its key is not the
/// smaller, and before it otherwise.
proof fn lemma_inserted_unfold(order: Seq<usize>, item: usize, boxes: Seq<BoundingBox>, axis: int)
    ensures
        order.len() == 0 ==> inserted(order, item, boxes, axis) == seq![item],
        order.len() > 0 && axis_key(boxes, axis, order.last()) <= axis_key(boxes, axis, item)
            ==> inserted(order, item, boxes, axis) == order.push(item),
        order.len() > 0 && axis_key(boxes, axis, order.last()) > axis_key(boxes, axis, item)
            ==> inserted(order, item, boxes, axis) == inserted(
            order.drop_last(),
            item,
            boxes,
            axis,
        ).push(order.last()),
{
    lemma_insert_point(order, item, boxes, axis);
    if order.len() == 0 {
        assert(inserted(order, item, boxes, axis) =~= seq![item]);
    } else if axis_key(boxes, axis, order.last()) <= axis_key(boxes, axis, item) {
        assert(inserted(order, item, boxes, axis) =~= order.push(item));
    } else {
        lemma_insert_point(order.drop_last(), item, boxes, axis);
        assert(inserted(order, item, boxes, axis) =~= inserted(
            order.drop_last(),
            item,
            boxes,
            axis,
        ).push(order.last()));
    }
}

/// An item may enter a merged list, or enter the right list before the
/// merge: the result is the same.
proof fn lemma_insert_into_merged(
    left: Seq<usize>,
    right: Seq<usize>,
    item: usize,
    boxes: Seq<BoundingBox>,
    axis: int,
)
    ensures
        inserted(merged_along(left, right, boxes, axis), item, boxes, axis) == merged_along(
            left,
            inserted(right, item, boxes, axis),
            boxes,
            axis,
        ),
    decreases left.len() + right.len(),
{
    let key = axis_key(boxes, axis, item);
    let merged = merged_along(left, right, boxes, axis);
    let entered = inserted(right, item, boxes, axis);
    lemma_inserted_unfold(right, item, boxes, axis);
    lemma_inserted_unfold(merged, item, boxes, axis);
    if right.len() == 0 {
        assert(entered =~= seq![item]);
        assert(entered.drop_last() =~= Seq::<usize>::empty());
        assert(entered.last() == item);
        if left.len() > 0 {
            if axis_key(boxes, axis, left.last()) > key {
                lemma_insert_into_merged(left.drop_last(), right, item, boxes, axis);
                lemma_inserted_unfold(left, item, boxes, axis);
                assert(merged_along(left.drop_last(), right, boxes, axis) == left.drop_last());
            } else {
                assert(merged_along(left, entered.drop_last(), boxes, axis) == left);
            }
        }
    } else {
        let last = right.last();
        if axis_key(boxes, axis, last) <= key {
            assert(entered.drop_last() =~= right);
            assert(entered.last() == item);
            if left.len() > 0 && axis_key(boxes, axis, left.last()) > axis_key(boxes, axis, last) {
                assert(merged == merged_along(left.drop_last(), right, boxes, axis).push(
                    left.last(),
                ));
                assert(merged.last() == left.last());
                assert(merged.drop_last() =~= merged_along(left.drop_last(), right, boxes, axis));
                if axis_key(boxes, axis, left.last()) > key {
                    lemma_insert_into_merged(left.drop_last(), right, item, boxes, axis);
                }
            } else {
                assert(merged == merged_along(left, right.drop_last(), boxes, axis).push(last));
                assert(merged.last() == last);
            }
        } else {
            let shorter = inserted(right.drop_last(), item, boxes, axis);
            assert(entered.drop_last() =~= shorter);
            assert(entered.last() == last);
            if left.len() > 0 && axis_key(boxes, axis, left.last()) > axis_key(boxes, axis, last) {
                assert(merged == merged_along(left.drop_last(), right, boxes, axis).push(
                    left.last(),
                ));
                assert(merged.last() == left.last());
                assert(merged.drop_last() =~= merged_along(left.drop_last(), right, boxes, axis));
                lemma_insert_into_merged(left.drop_last(), right, item, boxes, axis);
            } else {
                assert(merged == merged_along(left, right.drop_last(), boxes, axis).push(last));
                assert(merged.last() == last);
                assert(merged.drop_last() =~= merged_along(left, right.drop_last(), boxes, axis));
                lemma_insert_into_merged(left, right.drop_last(), item, boxes, axis);
                if left.len() == 0 {
                    assert(merged_along(left, entered, boxes, axis) == entered);
                    assert(merged_along(left, shorter, boxes, axis) == shorter);
                }
            }
        }
    }
}

/// Sorting a list is sorting its two parts and merging them.
pub proof fn lemma_sorted_is_merged(
    left: Seq<usize>,
    right: Seq<usize>,
    boxes: Seq<BoundingBox>,
    axis: int,
)
    ensures
        sorted_along(left + right, boxes, axis) == merged_along(
            sorted_along(left, boxes, axis),
            sorted_along(right, boxes, axis),
            boxes,
            axis,
        ),
    decreases right.len(),
{
    if right.len() == 0 {
        assert(left + right =~= left);
        assert(sorted_along(right, boxes, axis) =~= Seq::<usize>::empty());
    } else {
        let whole = left + right;
        assert(whole.drop_last() =~= left + right.drop_last());
        assert(whole.last() == right.last());
        lemma_sorted_is_merged(left, right.drop_last(), boxes, axis);
        lemma_insert_into_merged(
            sorted_along(left, boxes, axis),
            sorted_along(right.drop_last(), boxes, axis),
            right.last(),
            boxes,
            axis,
        );
    }
}

/// A list that holds the items of a list of indices is a list of indices.
proof fn lemma_same_items_within(a: Seq<usize>, b: Seq<usize>, n: int)
    requires
        members_within(a, n),
        a.to_multiset() == b.to_multiset(),
    ensures
        members_within(b, n),
        a.len() == b.len(),
{
    vstd::seq_lib::to_multiset_len(a);
    vstd::seq_lib::to_multiset_len(b);
    assert forall|k: int| 0 <= k < b.len() implies (#[trigger] b[k]) < n by {
        let x = b[k];
        assert(b.contains(x));
        vstd::seq_lib::to_multiset_contains(a, x);
        vstd::seq_lib::to_multiset_contains(b, x);
        let j = choose|j: int| 0 <= j < a.len() && a[j] == x;
        assert(a[j] < n);
    }
}

/// Merges two sorted lists.
fn merge_along(left: &Vec<usize>, right: &Vec<usize>, boxes: &Vec<BoundingBox>, axis: usize) -> (r:
    Vec<usize>)
    requires
        axis < 3,
        members_within(left@, boxes@.len() as int),
        members_within(right@, boxes@.len() as int),
        left@.len() + right@.len() <= usize::MAX,
    ensures
        r@ == merged_along(left@, right@, boxes@, axis as int),
{
    let total = left.len() + right.len();
    let mut out: Vec<usize> = Vec::new();
    let mut n: usize = 0;
    while n < total
        invariant
            n <= total,
            out@.len() == n,
        decreases total - n,
    {
        out.push(0);
        n = n + 1;
    }
    let mut i: usize = left.len();
    let mut j: usize = right.len();
    proof {
        assert(left@.take(i as int) =~= left@);
        assert(right@.take(j as int) =~= right@);
        assert(out@.subrange(total as int, total as int) =~= Seq::<usize>::empty());
        assert(merged_along(left@, right@, boxes@, axis as int) + Seq::<usize>::empty()
            =~= merged_along(left@, right@, boxes@, axis as int));
    }
    while i + j > 0
        invariant
            axis < 3,
            i <= left@.len(),
            j <= right@.len(),
            total == left@.len() + right@.len(),
            out@.len() == total,
            members_within(left@, boxes@.len() as int),
            members_within(right@, boxes@.len() as int),
            merged_along(left@, right@, boxes@, axis as int) == merged_along(
                left@.take(i as int),
                right@.take(j as int),
                boxes@,
                axis as int,
            ) + out@.subrange(i + j, total as int),
        decreases i + j,
    {
        let ghost part_left = left@.take(i as int);
        let ghost part_right = right@.take(j as int);
        let ghost tail = out@.subrange(i + j, total as int);
        let from_left = if j == 0 {
            true
        } else if i == 0 {
            false
        } else {
            boxes[left[i - 1]].min.i(axis).rank_value() > boxes[right[j
                - 1]].min.i(axis).rank_value()
        };
        if from_left {
            let item = left[i - 1];
            out.set(i + j - 1, item);
            proof {
                assert(part_left.last() == item);
                assert(part_left.drop_last() =~= left@.take(i - 1));
                let rest = merged_along(left@.take(i - 1), part_right, boxes@, axis as int);
                if j == 0 {
                    assert(merged_along(part_left, part_right, boxes@, axis as int) == part_left);
                    assert(rest == left@.take(i - 1));
                    assert(part_left =~= rest.push(item));
                }
                assert(merged_along(part_left, part_right, boxes@, axis as int) == rest.push(item));
                assert(rest.push(item) + tail =~= rest + out@.subrange(i + j - 1, total as int));
            }
            i = i - 1;
        } else {
            let item = right[j - 1];
            out.set(i + j - 1, item);
            proof {
                assert(part_right.last() == item);
                assert(part_right.drop_last() =~= right@.take(j - 1));
                let rest = merged_along(part_left, right@.take(j - 1), boxes@, axis as int);
                if i == 0 {
                    assert(merged_along(part_left, part_right, boxes@, axis as int) == part_right);
                    assert(rest == if j - 1 == 0 {
                        part_left
                    } else {
                        right@.take(j - 1)
                    });
                    assert(part_right =~= rest.push(item));
                }
                assert(merged_along(part_left, part_right, boxes@, axis as int) == rest.push(item));
                assert(rest.push(item) + tail =~= rest + out@.subrange(i + j - 1, total as int));
            }
            j = j - 1;
        }
    }
    proof {
        assert(left@.take(0) =~= Seq::<usize>::empty());
        assert(right@.take(0) =~= Seq::<usize>::empty());
        assert(out@.subrange(0, total as int) =~= out@);
        assert(Seq::<usize>::empty() + out@ =~= out@);
    }
    out
}

/// Sorts the items of `order` from index `from` up to index `to`.
fn sort_range(
    order: &Vec<usize>,
    from: usize,
    to: usize,
    boxes: &Vec<BoundingBox>,
    axis: usize,
) -> (r: Vec<usize>)
    requires
        axis < 3,
        from <= to <= order@.len(),
        members_within(order@, boxes@.len() as int),
    ensures
        r@ == sorted_along(order@.subrange(from as int, to as int), boxes@, axis as int),
        r@.len() == to - from,
        members_within(r@, boxes@.len() as int),
    decreases to - from,
{
    let ghost part = order@.subrange(from as int, to as int);
    proof {
        assert forall|k: int| 0 <= k < part.len() implies (#[trigger] part[k]) < boxes@.len() by {
            assert(part[k] == order@[from + k]);
        }
        lemma_sorted_along(part, boxes@, axis as int);
        lemma_same_items_within(
            part,
            sorted_along(part, boxes@, axis as int),
            boxes@.len() as int,
        );
    }
    if to - from == 0 {
        proof {
            assert(sorted_along(part, boxes@, axis as int) =~= Seq::<usize>::empty());
        }
        Vec::new()
    } else if to - from == 1 {
        let mut out: Vec<usize> = Vec::new();
        out.push(order[from]);
        proof {
            assert(part.drop_last() =~= Seq::<usize>::empty());
            assert(sorted_along(part.drop_last(), boxes@, axis as int) =~= Seq::<usize>::empty());
            assert(part.last() == order@[from as int]);
            assert(sorted_along(part, boxes@, axis as int) =~= seq![order@[from as int]]);
        }
        out
    } else {
        let middle = from + (to - from) / 2;
        let left = sort_range(order, from, middle, boxes, axis);
        let right = sort_range(order, middle, to, boxes, axis);
        proof {
            assert(part =~= order@.subrange(from as int, middle as int) + order@.subrange(
                middle as int,
                to as int,
            ));
            lemma_sorted_is_merged(
                order@.subrange(from as int, middle as int),
                order@.subrange(middle as int, to as int),
                boxes@,
                axis as int,
            );
        }
        merge_along(&left, &right, boxes, axis)
    }
}

/// Sorts the items of `order` by the lower face of their boxes along
/// `axis`. Items with equal keys keep their order.
pub fn sort_along(order: &Vec<usize>, boxes: &Vec<BoundingBox>, axis: usize) -> (r: Vec<usize>)
    requires
        axis < 3,
        members_within(order@, boxes@.len() as int),
    ensures
        r@ == sorted_along(order@, boxes@, axis as int),
        r@.len() == order@.len(),
        r@.to_multiset() == order@.to_multiset(),
        is_sorted_along(r@, boxes@, axis as int),
        members_within(r@, boxes@.len() as int),
{
    proof {
        assert(order@.subrange(0, order@.len() as int) =~= order@);
        lemma_sorted_along(order@, boxes@, axis as int);
    }
    sort_range(order, 0, order.len(), boxes, axis)
}

/// A child of a node: one item of the scene, named by its index, or a
/// subtree.
#[derive(Debug)]
pub enum BvhChild {
    Item(usize),
    Node(Box<BvhNode>),
}

/// A node of the hierarchy. It owns one child or two, and holds the box
/// around them.
#[derive(Debug)]
pub struct BvhNode {
    pub left: BvhChild,
    pub right: Option<BvhChild>,
    pub bbox: BoundingBox,
}

/// Why a hierarchy could not be built.
#[derive(Clone, Copy, Debug, PartialEq, Eq, Structural)]
pub enum BvhError {
    /// The list of items is empty.
    Empty,
    /// The item at `index` has no bounding box. Every item before it has a
    /// well-formed one.
    Unbounded { index: usize },
    /// The bounding box of the item at `index` is not well formed. Every
    /// item before it has a well-formed one.
    Malformed { index: usize },
}

/// Whether an item can stand in a hierarchy: it has a bounding box, and the
/// box is well formed.
pub open spec fn is_usable(item: Option<BoundingBox>) -> bool {
    item is Some && item.unwrap().wf()
}

/// Whether `error` says why no hierarchy can be built over `items`: the
/// list is empty, or the error names the first item that cannot stand in a
/// hierarchy and says what is wrong with it.
pub open spec fn is_reason(items: Seq<Option<BoundingBox>>, error: BvhError) -> bool {
    match error {
        BvhError::Empty => items.len() == 0,
        BvhError::Unbounded { index } => {
            &&& index < items.len()
            &&& items[index as int] is None
            &&& forall|i: int| 0 <= i < index ==> is_usable(#[trigger] items[i])
        },
        BvhError::Malformed { index } => {
            &&& index < items.len()
            &&& items[index as int] is Some
            &&& !items[index as int].unwrap().wf()
            &&& forall|i: int| 0 <= i < index ==> is_usable(#[trigger] items[i])
        },
    }
}

/// Whether no item of `left` has a greater key along `axis` than an item of
/// `right`.
pub open spec fn split_along(
    left: Seq<usize>,
    right: Seq<usize>,
    boxes: Seq<BoundingBox>,
    axis: int,
) -> bool {
    forall|i: int, j: int|
        0 <= i < left.len() && 0 <= j < right.len() ==> axis_key(boxes, axis, #[trigger] left[i])
            <= axis_key(boxes, axis, #[trigger] right[j])
}

impl BvhChild {
    /// The items below this child, from left to right.
    pub open spec fn items(self) -> Seq<usize>
        decreases self,
    {
        match self {
            BvhChild::Item(item) => seq![item],
            BvhChild::Node(node) => node.items(),
        }
    }

    /// The box of this child: the item's own box, or the subtree's.
    pub open spec fn bbox(self, boxes: Seq<BoundingBox>) -> BoundingBox {
        match self {
            BvhChild::Item(item) => boxes[item as int],
            BvhChild::Node(node) => node.bbox,
        }
    }

    /// Whether the child is an item of the list, or a subtree that is built
    /// as [`BvhNode::structure`] says.
    pub open spec fn structure(self, boxes: Seq<BoundingBox>) -> bool
        decreases self,
    {
        match self {
            BvhChild::Item(item) => item < boxes.len(),
            BvhChild::Node(node) => node.structure(boxes),
        }
    }
}

impl BvhNode {
    /// The items below this node, from left to right.
    pub open spec fn items(self) -> Seq<usize>
        decreases self,
    {
        match self.right {
            None => self.left.items(),
            Some(right) => self.left.items() + right.items(),
        }
    }

    /// Whether the tree is a median-split hierarchy over `boxes`:
    /// - a node with one child holds one item and that item's box;
    /// - a node with two children holds the union of their boxes; its
    ///   children are two items, or two subtrees over three items or more;
    /// - the left child holds half of the items, rounded down;
    /// - along one of the three axes no item on the left has a greater key
    ///   than an item on the right.
    pub open spec fn structure(self, boxes: Seq<BoundingBox>) -> bool
        decreases self,
    {
        &&& self.left.structure(boxes)
        &&& match self.right {
            None => self.left is Item && self.bbox == self.left.bbox(boxes),
            Some(right) => {
                &&& right.structure(boxes)
                &&& self.bbox == self.left.bbox(boxes).union_spec(right.bbox(boxes))
                &&& (self.left is Item <==> right is Item)
                &&& (self.left is Node ==> self.left.items().len() + right.items().len() >= 3)
                &&& self.left.items().len() == (self.left.items().len() + right.items().len())
                    / 2
                &&& exists|axis: int|
                    0 <= axis < 3 && #[trigger] split_along(
                        self.left.items(),
                        right.items(),
                        boxes,
                        axis,
                    )
            },
        }
    }

    /// The box around everything below this node.
    pub fn bounding_box(&self) -> (r: BoundingBox)
        ensures
            r == self.bbox,
    {
        self.bbox
    }
}

/// The axis along which a node sorts its items, chosen at random.
///
/// Calls `rand::thread_rng` and `Rng::gen_range(0, 3)`, which returns a
/// value of the half-open range: at least 0 and less than 3. Nothing else is
/// claimed of the choice.
#[verifier::external_body]
fn random_axis() -> (axis: usize)
    ensures
        axis < 3,
{
    rand::thread_rng().gen_range(0usize, 3usize)
}

/// The boxes of a list of items that all have one.
pub open spec fn unwrapped(items: Seq<Option<BoundingBox>>) -> Seq<BoundingBox> {
    Seq::new(items.len(), |i: int| items[i].unwrap())
}

/// In a hierarchy over well-formed boxes, the box of every node is the hull
/// of the boxes of the items below it.
pub proof fn lemma_node_box_is_hull(node: BvhNode, boxes: Seq<BoundingBox>)
    requires
        node.structure(boxes),
        all_wf(boxes),
    ensures
        is_hull(node.bbox, boxes, node.items()),
        members_within(node.items(), boxes.len() as int),
        node.items().len() > 0,
    decreases node,
{
    lemma_child_box_is_hull(node.left, boxes);
    match node.right {
        None => {},
        Some(right) => {
            lemma_child_box_is_hull(right, boxes);
            lemma_hull_union(
                node.left.bbox(boxes),
                node.left.items(),
                right.bbox(boxes),
                right.items(),
                boxes,
            );
        },
    }
}

/// The box of a child is the hull of the boxes of the items below it.
pub proof fn lemma_child_box_is_hull(child: BvhChild, boxes: Seq<BoundingBox>)
    requires
        child.structure(boxes),
        all_wf(boxes),
    ensures
        is_hull(child.bbox(boxes), boxes, child.items()),
        members_within(child.items(), boxes.len() as int),
        child.items().len() > 0,
    decreases child,
{
    match child {
        BvhChild::Item(item) => {
            lemma_hull_single(boxes, item);
        },
        BvhChild::Node(node) => {
            lemma_node_box_is_hull(*node, boxes);
        },
    }
}

/// A hierarchy that holds every item of a list reports the union of all the
/// boxes of the list as its own box, whatever the order of its items.
pub proof fn lemma_root_box_is_union(node: BvhNode, boxes: Seq<BoundingBox>)
    requires
        node.structure(boxes),
        all_wf(boxes),
        0 < boxes.len() <= usize::MAX,
        node.items().to_multiset() == identity_order(boxes.len()).to_multiset(),
    ensures
        node.bbox == union_all(boxes),
{
    lemma_node_box_is_hull(node, boxes);
    lemma_hull_permutation(node.bbox, boxes, node.items(), identity_order(boxes.len()));
    lemma_union_all_is_hull(boxes);
    lemma_hull_unique(node.bbox, union_all(boxes), boxes, identity_order(boxes.len()));
}

/// The two halves of a list of indices are lists of indices.
proof fn lemma_halves_within(whole: Seq<usize>, lower: Seq<usize>, upper: Seq<usize>, n: int)
    requires
        members_within(whole, n),
        whole.len() >= 3,
        lower == whole.subrange(0, whole.len() as int / 2),
        upper == whole.subrange(whole.len() as int / 2, whole.len() as int),
    ensures
        members_within(lower, n),
        members_within(upper, n),
        lower.len() > 0,
        upper.len() > 0,
        lower.len() < whole.len(),
        upper.len() < whole.len(),
{
    assert forall|k: int| 0 <= k < lower.len() implies (#[trigger] lower[k]) < n by {
        assert(lower[k] == whole[k]);
    }
    assert forall|k: int| 0 <= k < upper.len() implies (#[trigger] upper[k]) < n by {
        assert(upper[k] == whole[k + whole.len() as int / 2]);
    }
}

/// Two trees over the two halves of a sorted list hold, together, the items
/// of the list, the left one half of them rounded down, and no item on the
/// left has a greater key than an item on the right.
proof fn lemma_halves_split(
    whole: Seq<usize>,
    lower: Seq<usize>,
    upper: Seq<usize>,
    left: Seq<usize>,
    right: Seq<usize>,
    boxes: Seq<BoundingBox>,
    axis: int,
)
    requires
        is_sorted_along(whole, boxes, axis),
        lower == whole.subrange(0, whole.len() as int / 2),
        upper == whole.subrange(whole.len() as int / 2, whole.len() as int),
        left.to_multiset() == lower.to_multiset(),
        right.to_multiset() == upper.to_multiset(),
    ensures
        left.len() == whole.len() / 2,
        left.len() + right.len() == whole.len(),
        (left + right).to_multiset() == whole.to_multiset(),
        split_along(left, right, boxes, axis),
{
    let half = whole.len() as int / 2;
    assert(whole =~= lower + upper);
    vstd::seq_lib::lemma_multiset_commutative(lower, upper);
    vstd::seq_lib::lemma_multiset_commutative(left, right);
    vstd::seq_lib::to_multiset_len(left);
    vstd::seq_lib::to_multiset_len(lower);
    vstd::seq_lib::to_multiset_len(right);
    vstd::seq_lib::to_multiset_len(upper);
    assert forall|i: int, j: int| 0 <= i < left.len() && 0 <= j < right.len() implies axis_key(
        boxes,
        axis,
        #[trigger] left[i],
    ) <= axis_key(boxes, axis, #[trigger] right[j]) by {
        let a = left[i];
        let b = right[j];
        assert(left.contains(a));
        assert(right.contains(b));
        vstd::seq_lib::to_multiset_contains(left, a);
        vstd::seq_lib::to_multiset_contains(lower, a);
        vstd::seq_lib::to_multiset_contains(right, b);
        vstd::seq_lib::to_multiset_contains(upper, b);
        let ia = choose|k: int| 0 <= k < lower.len() && lower[k] == a;
        let ib = choose|k: int| 0 <= k < upper.len() && upper[k] == b;
        assert(whole[ia] == a);
        assert(whole[ib + half] == b);
    }
}

/// Number of nodes of a hierarchy over `items` items, and so the number of
/// axes that building it takes.
pub open spec fn node_count(items: nat) -> nat
    decreases items,
{
    if items <= 2 {
        1
    } else {
        1 + node_count(items / 2) + node_count((items - items / 2) as nat)
    }
}

/// A hierarchy has fewer nodes than twice its items.
pub proof fn lemma_node_count(items: nat)
    requires
        items > 0,
    ensures
        1 <= node_count(items) <= 2 * items - 1,
    decreases items,
{
    if items > 2 {
        lemma_node_count(items / 2);
        lemma_node_count((items - items / 2) as nat);
    }
}

/// Number of axes that building a hierarchy over `items` items takes: one
/// for each of its nodes.
pub fn axes_needed(items: usize) -> (r: usize)
    requires
        items <= usize::MAX / 2,
    ensures
        r == node_count(items as nat),
    decreases items,
{
    if items <= 2 {
        1
    } else {
        let half = items / 2;
        proof {
            lemma_node_count(half as nat);
            lemma_node_count((items - half) as nat);
        }
        1 + axes_needed(half) + axes_needed(items - half)
    }
}

/// Whether the axes from index `at` on are enough for a hierarchy over
/// `items` items, and each of them is one of the three.
pub open spec fn axes_suffice(axes: Seq<usize>, at: int, items: nat) -> bool {
    &&& 0 <= at
    &&& at + node_count(items) <= axes.len()
    &&& forall|k: int| at <= k < at + node_count(items) ==> (#[trigger] axes[k]) < 3
}

/// The hierarchy over the items that `order` lists, where the nodes take
/// their axes from `axes`, the root the one at index `at`, then the nodes of
/// the left subtree and then those of the right: the items are sorted along
/// the axis of the node; one or two items hang below the node itself; three
/// or more are split in the middle of the sorted list, the first half,
/// rounded down, for the left subtree and the rest for the right.
pub open spec fn built(
    order: Seq<usize>,
    boxes: Seq<BoundingBox>,
    axes: Seq<usize>,
    at: int,
) -> BvhNode
    decreases order.len(),
    via built_decreases
{
    let sorted = sorted_along(order, boxes, axes[at] as int);
    if order.len() <= 1 {
        BvhNode { left: BvhChild::Item(sorted[0]), right: None, bbox: boxes[sorted[0] as int] }
    } else if order.len() == 2 {
        BvhNode {
            left: BvhChild::Item(sorted[0]),
            right: Some(BvhChild::Item(sorted[1])),
            bbox: boxes[sorted[0] as int].union_spec(boxes[sorted[1] as int]),
        }
    } else {
        let half = order.len() as int / 2;
        let left = built(sorted.take(half), boxes, axes, at + 1);
        let right = built(sorted.skip(half), boxes, axes, at + 1 + node_count(half as nat));
        BvhNode {
            left: BvhChild::Node(Box::new(left)),
            right: Some(BvhChild::Node(Box::new(right))),
            bbox: left.bbox.union_spec(right.bbox),
        }
    }
}

#[via_fn]
proof fn built_decreases(order: Seq<usize>, boxes: Seq<BoundingBox>, axes: Seq<usize>, at: int) {
    lemma_sorted_along(order, boxes, axes[at] as int);
}

/// The hierarchy that is built over a list of indices is a median-split
/// hierarchy. It holds the items of the list, each as often as the list, and
/// its box is the hull of their boxes.
pub proof fn lemma_built(order: Seq<usize>, boxes: Seq<BoundingBox>, axes: Seq<usize>, at: int)
    requires
        order.len() > 0,
        members_within(order, boxes.len() as int),
        all_wf(boxes),
        axes_suffice(axes, at, order.len()),
    ensures
        built(order, boxes, axes, at).structure(boxes),
        built(order, boxes, axes, at).items().to_multiset() == order.to_multiset(),
        is_hull(built(order, boxes, axes, at).bbox, boxes, order),
    decreases order.len(),
{
    let axis = axes[at] as int;
    let sorted = sorted_along(order, boxes, axis);
    let node = built(order, boxes, axes, at);
    lemma_node_count(order.len());
    lemma_sorted_along(order, boxes, axis);
    lemma_same_items_within(order, sorted, boxes.len() as int);
    assert(0 <= axis < 3);
    if order.len() == 1 {
        assert(node.left == BvhChild::Item(sorted[0]));
        assert(node.right is None);
        assert(node.items() =~= sorted);
        assert(node.structure(boxes));
    } else if order.len() == 2 {
        assert(node.left == BvhChild::Item(sorted[0]));
        assert(node.right == Some(BvhChild::Item(sorted[1])));
        assert(node.left.items() =~= seq![sorted[0]]);
        assert(node.right.unwrap().items() =~= seq![sorted[1]]);
        assert(node.items() =~= sorted);
        assert(axis_key(boxes, axis, sorted[0]) <= axis_key(boxes, axis, sorted[1]));
        assert(split_along(seq![sorted[0]], seq![sorted[1]], boxes, axis));
        assert(node.structure(boxes));
    } else {
        let half = order.len() as int / 2;
        let lower = sorted.take(half);
        let upper = sorted.skip(half);
        lemma_halves_within(sorted, lower, upper, boxes.len() as int);
        lemma_node_count(half as nat);
        lemma_node_count((order.len() - half) as nat);
        let left = built(lower, boxes, axes, at + 1);
        let right = built(upper, boxes, axes, at + 1 + node_count(half as nat));
        assert(axes_suffice(axes, at + 1, lower.len()));
        assert(axes_suffice(axes, at + 1 + node_count(half as nat), upper.len()));
        lemma_built(lower, boxes, axes, at + 1);
        lemma_built(upper, boxes, axes, at + 1 + node_count(half as nat));
        lemma_halves_split(sorted, lower, upper, left.items(), right.items(), boxes, axis);
        lemma_built_splits(node, left, right, boxes, axis);
    }
    lemma_node_box_is_hull(node, boxes);
    lemma_hull_permutation(node.bbox, boxes, node.items(), order);
}

/// A node over two subtrees that split their items along an axis is a
/// median-split hierarchy if the subtrees are.
proof fn lemma_built_splits(
    node: BvhNode,
    left: BvhNode,
    right: BvhNode,
    boxes: Seq<BoundingBox>,
    axis: int,
)
    requires
        node == (BvhNode {
            left: BvhChild::Node(Box::new(left)),
            right: Some(BvhChild::Node(Box::new(right))),
            bbox: left.bbox.union_spec(right.bbox),
        }),
        left.structure(boxes),
        right.structure(boxes),
        0 <= axis < 3,
        split_along(left.items(), right.items(), boxes, axis),
        left.items().len() + right.items().len() >= 3,
        left.items().len() == (left.items().len() + right.items().len()) / 2,
    ensures
        node.structure(boxes),
        node.items() == left.items() + right.items(),
{
    assert(node.left.items() == left.items());
    assert(node.right.unwrap().items() == right.items());
    assert(node.left.structure(boxes));
    assert(node.right.unwrap().structure(boxes));
}

impl BvhNode {
    /// Builds the hierarchy over the items that `order` lists, with the
    /// axes of its nodes taken from `axes` from index `at` on. Returns the
    /// hierarchy and the index of the first axis that it did not use.
    pub fn build(order: Vec<usize>, boxes: &Vec<BoundingBox>, axes: &Vec<usize>, at: usize) -> (r:
        (BvhNode, usize))
        requires
            order@.len() > 0,
            members_within(order@, boxes@.len() as int),
            all_wf(boxes@),
            axes_suffice(axes@, at as int, order@.len()),
        ensures
            r.0 == built(order@, boxes@, axes@, at as int),
            r.1 == at + node_count(order@.len()),
            r.0.structure(boxes@),
            r.0.items().to_multiset() == order@.to_multiset(),
            is_hull(r.0.bbox, boxes@, order@),
        decreases order@.len(),
    {
        proof {
            lemma_node_count(order@.len());
            lemma_built(order@, boxes@, axes@, at as int);
        }
        let available = axes.len();
        assert(at < available);
        let axis = axes[at];
        let mut sorted = sort_along(&order, boxes, axis);
        let count = sorted.len();
        if count == 1 {
            let item = sorted[0];
            (BvhNode { left: BvhChild::Item(item), right: None, bbox: boxes[item] }, at + 1)
        } else if count == 2 {
            let first = sorted[0];
            let second = sorted[1];
            let bbox = surrounding_box(&boxes[first], &boxes[second]);
            (
                BvhNode { left: BvhChild::Item(first), right: Some(BvhChild::Item(second)), bbox },
                at + 1,
            )
        } else {
            let ghost whole = sorted@;
            let half = count / 2;
            let upper = sorted.split_off(half);
            proof {
                lemma_halves_within(whole, sorted@, upper@, boxes@.len() as int);
                assert(sorted@ =~= whole.take(half as int));
                assert(upper@ =~= whole.skip(half as int));
                lemma_node_count(half as nat);
                lemma_node_count((count - half) as nat);
            }
            let (left, middle) = BvhNode::build(sorted, boxes, axes, at + 1);
            let (right, end) = BvhNode::build(upper, boxes, axes, middle);
            let bbox = surrounding_box(&left.bbox, &right.bbox);
            (
                BvhNode {
                    left: BvhChild::Node(Box::new(left)),
                    right: Some(BvhChild::Node(Box::new(right))),
                    bbox,
                },
                end,
            )
        }
    }

    /// The boxes of a list of items, or the reason why no hierarchy can be
    /// built over the list.
    fn usable_boxes(items: &Vec<Option<BoundingBox>>) -> (r: Result<Vec<BoundingBox>, BvhError>)
        ensures
            r == Err::<Vec<BoundingBox>, BvhError>(BvhError::Empty) <==> items@.len() == 0,
            r is Ok <==> items@.len() > 0 && forall|i: int|
                0 <= i < items@.len() ==> is_usable(#[trigger] items@[i]),
            match r {
                Ok(boxes) => boxes@ == unwrapped(items@) && all_wf(boxes@),
                Err(error) => is_reason(items@, error),
            },
    {
        if items.len() == 0 {
            return Err(BvhError::Empty);
        }
        let mut boxes: Vec<BoundingBox> = Vec::new();
        let mut i: usize = 0;
        while i < items.len()
            invariant
                i <= items@.len(),
                boxes@.len() == i,
                forall|k: int| 0 <= k < i ==> is_usable(#[trigger] items@[k]),
                forall|k: int| 0 <= k < i ==> boxes@[k] == items@[k].unwrap(),
            decreases items@.len() - i,
        {
            match items[i] {
                Some(bbox) => {
                    if !bbox.is_wf() {
                        return Err(BvhError::Malformed { index: i });
                    }
                    boxes.push(bbox);
                },
                None => {
                    return Err(BvhError::Unbounded { index: i });
                },
            }
            i = i + 1;
        }
        proof {
            assert(boxes@ =~= unwrapped(items@));
            assert forall|k: int| 0 <= k < boxes@.len() implies (#[trigger] boxes@[k]).wf() by {
                assert(is_usable(items@[k]));
            }
        }
        Ok(boxes)
    }

    /// The list `0, 1, .., n - 1`.
    fn first_order(n: usize) -> (r: Vec<usize>)
        ensures
            r@ == identity_order(n as nat),
    {
        let mut order: Vec<usize> = Vec::new();
        let mut i: usize = 0;
        while i < n
            invariant
                i <= n,
                order@ == identity_order(i as nat),
            decreases n - i,
        {
            order.push(i);
            proof {
                assert(order@ =~= identity_order((i + 1) as nat));
            }
            i = i + 1;
        }
        order
    }

    /// Builds the hierarchy over a list of items, each given by its
    /// bounding box, with the axes of the nodes taken from `axes`. The items
    /// are named by their index in the list.
    ///
    /// Fails on an empty list, and on a list with an item that has no
    /// bounding box or one that is not well formed. The list of axes has
    /// to hold at least as many axes as [`axes_needed`] says, each of them
    /// 0, 1 or 2.
    pub fn with_axes(items: &Vec<Option<BoundingBox>>, axes: &Vec<usize>) -> (r: Result<
        BvhNode,
        BvhError,
    >)
        requires
            items@.len() > 0 ==> axes_suffice(axes@, 0, items@.len()),
        ensures
            r == Err::<BvhNode, BvhError>(BvhError::Empty) <==> items@.len() == 0,
            r is Ok <==> items@.len() > 0 && forall|i: int|
                0 <= i < items@.len() ==> is_usable(#[trigger] items@[i]),
            match r {
                Ok(node) => {
                    &&& node == built(
                        identity_order(items@.len()),
                        unwrapped(items@),
                        axes@,
                        0,
                    )
                    &&& node.structure(unwrapped(items@))
                    &&& node.items().to_multiset() == identity_order(items@.len()).to_multiset()
                    &&& node.bbox == union_all(unwrapped(items@))
                },
                Err(error) => is_reason(items@, error),
            },
    {
        match BvhNode::usable_boxes(items) {
            Err(e) => Err(e),
            Ok(boxes) => {
                let order = BvhNode::first_order(items.len());
                let (node, _) = BvhNode::build(order, &boxes, axes, 0);
                proof {
                    lemma_root_box_is_union(node, boxes@);
                }
                Ok(node)
            },
        }
    }

    /// Builds the hierarchy over a list of items, each given by its
    /// bounding box, with an axis chosen at random for every node. The
    /// items are named by their index in the list.
    ///
    /// Fails on an empty list, and on a list with an item that has no
    /// bounding box or one that is not well formed. Otherwise the tree is
    /// the one that [`BvhNode::with_axes`] builds from the axes that were
    /// drawn: it holds every item once, and its box is the union of all the
    /// boxes of the list.
    pub fn new(items: &Vec<Option<BoundingBox>>) -> (r: Result<BvhNode, BvhError>)
        ensures
            r == Err::<BvhNode, BvhError>(BvhError::Empty) <==> items@.len() == 0,
            r is Ok <==> items@.len() > 0 && forall|i: int|
                0 <= i < items@.len() ==> is_usable(#[trigger] items@[i]),
            match r {
                Ok(node) => {
                    &&& exists|axes: Seq<usize>|
                        #[trigger] axes_suffice(axes, 0, items@.len()) && node == built(
                            identity_order(items@.len()),
                            unwrapped(items@),
                            axes,
                            0,
                        )
                    &&& node.structure(unwrapped(items@))
                    &&& node.items().to_multiset() == identity_order(items@.len()).to_multiset()
                    &&& node.bbox == union_all(unwrapped(items@))
                },
                Err(error) => is_reason(items@, error),
            },
    {
        let mut axes: Vec<usize> = Vec::new();
        let mut i: usize = 0;
        while i < items.len()
            invariant
                i <= items@.len(),
                axes@.len() == 2 * i,
                forall|k: int| 0 <= k < axes@.len() ==> (#[trigger] axes@[k]) < 3,
            decreases items@.len() - i,
        {
            axes.push(random_axis());
            axes.push(random_axis());
            i = i + 1;
        }
        proof {
            if items@.len() > 0 {
                lemma_node_count(items@.len());
                assert(axes_suffice(axes@, 0, items@.len()));
            }
        }
        BvhNode::with_axes(items, &axes)
    }
}

} // verus!
