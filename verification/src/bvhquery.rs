//! Finding the closest hit in a hierarchy: which boxes and items a ray is
//! tried against, in which order, and which of the hits is kept.
//!
//! The query hands out one probe at a time, a box or an item. The caller
//! tries the ray against it and hands back what it found.

use crate::boundingbox::{all_wf, lemma_hull_encloses, BoundingBox};
use crate::bvhnode::{lemma_node_box_is_hull, BvhChild, BvhNode};
use crate::hitable::{
    at_least_as_close, closer, closer_spec, is_numeric_hit, lemma_closer_associative,
    lemma_closer_is_closest, HitRecord,
};
use vstd::prelude::*;

verus! {

/// Whether every hit that `item_hit` reports has a number as its parameter.
pub open spec fn numeric_hits(item_hit: spec_fn(usize) -> Option<HitRecord>) -> bool {
    forall|item: usize| is_numeric_hit(#[trigger] item_hit(item))
}

impl BvhChild {
    /// Number of probes that a query can spend below this child.
    pub open spec fn size(self) -> nat
        decreases self,
    {
        match self {
            BvhChild::Item(_) => 1,
            BvhChild::Node(node) => node.size(),
        }
    }

    /// The closest hit below this child, where `box_hit` says which boxes
    /// the ray meets and `item_hit` where it meets each item.
    pub open spec fn hit_spec(
        self,
        box_hit: spec_fn(BoundingBox) -> bool,
        item_hit: spec_fn(usize) -> Option<HitRecord>,
    ) -> Option<HitRecord>
        decreases self,
    {
        match self {
            BvhChild::Item(item) => item_hit(item),
            BvhChild::Node(node) => node.hit_spec(box_hit, item_hit),
        }
    }

    /// Whether the ray meets the box of every subtree below which it meets
    /// an item.
    pub open spec fn conservative(
        self,
        box_hit: spec_fn(BoundingBox) -> bool,
        item_hit: spec_fn(usize) -> Option<HitRecord>,
    ) -> bool
        decreases self,
    {
        match self {
            BvhChild::Item(_) => true,
            BvhChild::Node(node) => node.conservative(box_hit, item_hit),
        }
    }
}

impl BvhNode {
    /// Number of probes that a query can spend on this node and below it.
    pub open spec fn size(self) -> nat
        decreases self,
    {
        match self.right {
            None => 1 + self.left.size(),
            Some(right) => 1 + self.left.size() + right.size(),
        }
    }

    /// The closest hit below this node: none where the ray misses the box
    /// of the node; else the hit of the only child, or the closer of the
    /// hits of the two children.
    pub open spec fn hit_spec(
        self,
        box_hit: spec_fn(BoundingBox) -> bool,
        item_hit: spec_fn(usize) -> Option<HitRecord>,
    ) -> Option<HitRecord>
        decreases self,
    {
        if !box_hit(self.bbox) {
            None
        } else {
            match self.right {
                None => self.left.hit_spec(box_hit, item_hit),
                Some(right) => closer_spec(
                    self.left.hit_spec(box_hit, item_hit),
                    right.hit_spec(box_hit, item_hit),
                ),
            }
        }
    }

    /// Whether the ray meets the box of this node if it meets an item below
    /// it, and the same holds of every subtree.
    pub open spec fn conservative(
        self,
        box_hit: spec_fn(BoundingBox) -> bool,
        item_hit: spec_fn(usize) -> Option<HitRecord>,
    ) -> bool
        decreases self,
    {
        &&& (exists|k: int| 0 <= k < self.items().len() && item_hit(#[trigger] self.items()[k]) is Some)
            ==> box_hit(self.bbox)
        &&& self.left.conservative(box_hit, item_hit)
        &&& match self.right {
            None => true,
            Some(right) => right.conservative(box_hit, item_hit),
        }
    }
}

/// What is still to be tried: a subtree, box first, or one item.
#[derive(Clone, Copy, Debug)]
pub enum Task<'a> {
    Node(&'a BvhNode),
    Item(usize),
}

/// What the caller is asked to try the ray against, or the answer of the
/// query.
#[derive(Clone, Copy, Debug, PartialEq, Eq, Structural)]
pub enum Probe {
    /// Does the ray meet this box?
    Box(BoundingBox),
    /// Where does the ray meet the item with this index?
    Item(usize),
    /// Nothing is left to try: this is the closest hit.
    Done(Option<HitRecord>),
}

impl<'a> Task<'a> {
    /// Number of probes that the task can take.
    pub open spec fn size(self) -> nat {
        match self {
            Task::Node(node) => node.size(),
            Task::Item(_) => 1,
        }
    }

    /// The closest hit that the task can find.
    pub open spec fn hit_spec(
        self,
        box_hit: spec_fn(BoundingBox) -> bool,
        item_hit: spec_fn(usize) -> Option<HitRecord>,
    ) -> Option<HitRecord> {
        match self {
            Task::Node(node) => node.hit_spec(box_hit, item_hit),
            Task::Item(item) => item_hit(item),
        }
    }

    /// The task of searching below `child`.
    pub open spec fn of_child(child: BvhChild) -> Task<'a> {
        match child {
            BvhChild::Item(item) => Task::Item(item),
            BvhChild::Node(node) => Task::Node(&*node),
        }
    }
}

/// Total number of probes that a list of tasks can take.
pub open spec fn pending_work(tasks: Seq<Task>) -> nat
    decreases tasks.len(),
{
    if tasks.len() == 0 {
        0
    } else {
        pending_work(tasks.drop_last()) + tasks.last().size()
    }
}

/// The hit that a query ends with, from a list of tasks of which the last
/// is taken up first and from the best hit so far.
pub open spec fn outcome(
    tasks: Seq<Task>,
    best: Option<HitRecord>,
    box_hit: spec_fn(BoundingBox) -> bool,
    item_hit: spec_fn(usize) -> Option<HitRecord>,
) -> Option<HitRecord>
    decreases tasks.len(),
{
    if tasks.len() == 0 {
        best
    } else {
        outcome(
            tasks.drop_last(),
            closer_spec(best, tasks.last().hit_spec(box_hit, item_hit)),
            box_hit,
            item_hit,
        )
    }
}

/// The tasks that take the place of a node whose box the ray meets: its
/// right child, if it has one, and then its left child, which is taken up
/// first.
pub open spec fn children_tasks<'a>(node: BvhNode) -> Seq<Task<'a>> {
    match node.right {
        None => seq![Task::of_child(node.left)],
        Some(right) => seq![Task::of_child(right), Task::of_child(node.left)],
    }
}

/// A running search for the closest hit in a hierarchy.
#[derive(Debug)]
pub struct BvhQuery<'a> {
    pub tasks: Vec<Task<'a>>,
    pub best: Option<HitRecord>,
}

impl<'a> BvhQuery<'a> {
    /// A query that has the whole tree below `root` before it.
    pub fn new(root: &'a BvhNode) -> (r: BvhQuery<'a>)
        ensures
            r.tasks@ == seq![Task::Node(root)],
            r.best is None,
    {
        let mut tasks: Vec<Task<'a>> = Vec::new();
        tasks.push(Task::Node(root));
        BvhQuery { tasks, best: None }
    }

    /// What to try next: the box of the subtree or the item that is taken
    /// up first, or the answer where nothing is left.
    pub fn next(&self) -> (r: Probe)
        ensures
            self.tasks@.len() == 0 ==> r == Probe::Done(self.best),
            self.tasks@.len() > 0 ==> r == match self.tasks@.last() {
                Task::Node(node) => Probe::Box(node.bbox),
                Task::Item(item) => Probe::Item(item),
            },
    {
        let count = self.tasks.len();
        if count == 0 {
            Probe::Done(self.best)
        } else {
            match self.tasks[count - 1] {
                Task::Node(node) => Probe::Box(node.bbox),
                Task::Item(item) => Probe::Item(item),
            }
        }
    }

    /// Takes in whether the ray meets the box that [`BvhQuery::next`] asked
    /// for. A subtree whose box is missed is dropped; else its children take
    /// its place, the left one first.
    pub fn box_tested(&mut self, hit: bool)
        requires
            old(self).tasks@.len() > 0,
            old(self).tasks@.last() is Node,
        ensures
            final(self).best == old(self).best,
            final(self).tasks@ == if hit {
                old(self).tasks@.drop_last() + children_tasks(*old(self).tasks@.last()->Node_0)
            } else {
                old(self).tasks@.drop_last()
            },
            pending_work(final(self).tasks@) < pending_work(old(self).tasks@),
    {
        let ghost before = self.tasks@;
        let task = self.tasks.pop();
        match task {
            Some(Task::Node(node)) => {
                if hit {
                    match &node.right {
                        Some(right) => {
                            self.tasks.push(task_of(right));
                        },
                        None => {},
                    }
                    self.tasks.push(task_of(&node.left));
                    proof {
                        assert(self.tasks@ =~= before.drop_last() + children_tasks(*node));
                        lemma_pending_work_children(before.drop_last(), *node);
                    }
                }
            },
            _ => {},
        }
    }

    /// Takes in where the ray meets the item that [`BvhQuery::next`] asked
    /// for. The closer of this hit and the best so far is kept.
    pub fn item_tested(&mut self, hit: Option<HitRecord>)
        requires
            old(self).tasks@.len() > 0,
            old(self).tasks@.last() is Item,
        ensures
            final(self).best == closer_spec(old(self).best, hit),
            final(self).tasks@ == old(self).tasks@.drop_last(),
            pending_work(final(self).tasks@) < pending_work(old(self).tasks@),
    {
        self.tasks.pop();
        self.best = closer(self.best, hit);
    }
}

/// The task of searching below a child.
fn task_of<'a>(child: &'a BvhChild) -> (r: Task<'a>)
    ensures
        r == Task::of_child(*child),
{
    match child {
        BvhChild::Item(item) => Task::Item(*item),
        BvhChild::Node(node) => Task::Node(&**node),
    }
}

/// The children of a node take fewer probes than the node.
proof fn lemma_pending_work_children(rest: Seq<Task>, node: BvhNode)
    ensures
        pending_work(rest + children_tasks(node)) < pending_work(rest.push(Task::Node(&node))),
        pending_work(rest.push(Task::Node(&node))) == pending_work(rest) + node.size(),
{
    let with_node = rest.push(Task::Node(&node));
    assert(with_node.drop_last() =~= rest);
    assert(with_node.last().size() == node.size());
    assert(pending_work(with_node) == pending_work(rest) + node.size());
    let left = Task::of_child(node.left);
    assert(left.size() == node.left.size());
    match node.right {
        None => {
            let after = rest + children_tasks(node);
            assert(after.drop_last() =~= rest);
            assert(after.last() == left);
            assert(pending_work(after) == pending_work(rest) + left.size());
        },
        Some(right) => {
            let after = rest + children_tasks(node);
            let right_task = Task::of_child(right);
            assert(right_task.size() == right.size());
            assert(after.last() == left);
            assert(after.drop_last() =~= rest.push(right_task));
            assert(after.drop_last().drop_last() =~= rest);
            assert(after.drop_last().last() == right_task);
            assert(pending_work(after.drop_last()) == pending_work(rest) + right_task.size());
            assert(pending_work(after) == pending_work(after.drop_last()) + left.size());
        },
    }
}

/// Taking up one more task first means keeping the closer of the best hit
/// and the hit of that task, and going on with the rest.
pub proof fn lemma_outcome_push(
    rest: Seq<Task>,
    task: Task,
    best: Option<HitRecord>,
    box_hit: spec_fn(BoundingBox) -> bool,
    item_hit: spec_fn(usize) -> Option<HitRecord>,
)
    ensures
        outcome(rest.push(task), best, box_hit, item_hit) == outcome(
            rest,
            closer_spec(best, task.hit_spec(box_hit, item_hit)),
            box_hit,
            item_hit,
        ),
{
    assert(rest.push(task).drop_last() =~= rest);
    assert(rest.push(task).last() == task);
}

/// The closest hit below a node has a number as its parameter if the hits
/// of all items have.
pub proof fn lemma_node_hit_numeric(
    node: BvhNode,
    box_hit: spec_fn(BoundingBox) -> bool,
    item_hit: spec_fn(usize) -> Option<HitRecord>,
)
    requires
        numeric_hits(item_hit),
    ensures
        is_numeric_hit(node.hit_spec(box_hit, item_hit)),
    decreases node,
{
    lemma_child_hit_numeric(node.left, box_hit, item_hit);
    match node.right {
        None => {},
        Some(right) => {
            lemma_child_hit_numeric(right, box_hit, item_hit);
            lemma_closer_is_closest(
                node.left.hit_spec(box_hit, item_hit),
                right.hit_spec(box_hit, item_hit),
            );
        },
    }
}

/// The closest hit below a child has a number as its parameter if the hits
/// of all items have.
pub proof fn lemma_child_hit_numeric(
    child: BvhChild,
    box_hit: spec_fn(BoundingBox) -> bool,
    item_hit: spec_fn(usize) -> Option<HitRecord>,
)
    requires
        numeric_hits(item_hit),
    ensures
        is_numeric_hit(child.hit_spec(box_hit, item_hit)),
        is_numeric_hit(Task::of_child(child).hit_spec(box_hit, item_hit)),
        Task::of_child(child).hit_spec(box_hit, item_hit) == child.hit_spec(box_hit, item_hit),
    decreases child,
{
    match child {
        BvhChild::Item(item) => {
            assert(is_numeric_hit(item_hit(item)));
        },
        BvhChild::Node(node) => {
            lemma_node_hit_numeric(*node, box_hit, item_hit);
        },
    }
}

/// A query starts out to find the closest hit below its root.
pub proof fn lemma_query_start(
    root: BvhNode,
    box_hit: spec_fn(BoundingBox) -> bool,
    item_hit: spec_fn(usize) -> Option<HitRecord>,
)
    ensures
        outcome(seq![Task::Node(&root)], None, box_hit, item_hit) == root.hit_spec(
            box_hit,
            item_hit,
        ),
{
    let tasks = seq![Task::Node(&root)];
    assert(tasks.drop_last() =~= Seq::<Task>::empty());
    assert(tasks.last() == Task::Node(&root));
    assert(outcome(tasks.drop_last(), root.hit_spec(box_hit, item_hit), box_hit, item_hit)
        == root.hit_spec(box_hit, item_hit));
}

/// Handing back the truth about a box does not change what the query ends
/// with: the step of [`BvhQuery::box_tested`] keeps the outcome.
pub proof fn lemma_box_step_keeps_outcome(
    rest: Seq<Task>,
    node: BvhNode,
    best: Option<HitRecord>,
    box_hit: spec_fn(BoundingBox) -> bool,
    item_hit: spec_fn(usize) -> Option<HitRecord>,
)
    requires
        numeric_hits(item_hit),
        is_numeric_hit(best),
    ensures
        outcome(
            if box_hit(node.bbox) {
                rest + children_tasks(node)
            } else {
                rest
            },
            best,
            box_hit,
            item_hit,
        ) == outcome(rest.push(Task::Node(&node)), best, box_hit, item_hit),
{
    lemma_outcome_push(rest, Task::Node(&node), best, box_hit, item_hit);
    if box_hit(node.bbox) {
        let left = Task::of_child(node.left);
        lemma_child_hit_numeric(node.left, box_hit, item_hit);
        match node.right {
            None => {
                assert(rest + children_tasks(node) =~= rest.push(left));
                lemma_outcome_push(rest, left, best, box_hit, item_hit);
            },
            Some(right) => {
                let right_task = Task::of_child(right);
                lemma_child_hit_numeric(right, box_hit, item_hit);
                assert(rest + children_tasks(node) =~= rest.push(right_task).push(left));
                lemma_outcome_push(rest.push(right_task), left, best, box_hit, item_hit);
                lemma_outcome_push(
                    rest,
                    right_task,
                    closer_spec(best, left.hit_spec(box_hit, item_hit)),
                    box_hit,
                    item_hit,
                );
                lemma_closer_associative(
                    best,
                    left.hit_spec(box_hit, item_hit),
                    right_task.hit_spec(box_hit, item_hit),
                );
            },
        }
    }
}

/// Handing back the hit of an item does not change what the query ends
/// with: the step of [`BvhQuery::item_tested`] keeps the outcome.
pub proof fn lemma_item_step_keeps_outcome(
    rest: Seq<Task>,
    item: usize,
    best: Option<HitRecord>,
    box_hit: spec_fn(BoundingBox) -> bool,
    item_hit: spec_fn(usize) -> Option<HitRecord>,
)
    ensures
        outcome(rest, closer_spec(best, item_hit(item)), box_hit, item_hit) == outcome(
            rest.push(Task::Item(item)),
            best,
            box_hit,
            item_hit,
        ),
{
    lemma_outcome_push(rest, Task::Item(item), best, box_hit, item_hit);
}

/// The closest hit below a node is the hit of one of its items, and where
/// the boxes are conservative it is at least as close as the hit of every
/// item below the node: no hit is lost to a box that the ray misses.
pub proof fn lemma_node_hit_is_closest(
    node: BvhNode,
    box_hit: spec_fn(BoundingBox) -> bool,
    item_hit: spec_fn(usize) -> Option<HitRecord>,
)
    requires
        numeric_hits(item_hit),
        node.conservative(box_hit, item_hit),
    ensures
        forall|k: int|
            0 <= k < node.items().len() ==> at_least_as_close(
                node.hit_spec(box_hit, item_hit),
                item_hit(#[trigger] node.items()[k]),
            ),
        node.hit_spec(box_hit, item_hit) is Some ==> exists|k: int|
            0 <= k < node.items().len() && node.hit_spec(box_hit, item_hit) == item_hit(
                #[trigger] node.items()[k],
            ),
    decreases node,
{
    let found = node.hit_spec(box_hit, item_hit);
    let left_items = node.left.items();
    let left_found = node.left.hit_spec(box_hit, item_hit);
    lemma_child_hit_is_closest(node.left, box_hit, item_hit);
    lemma_child_hit_numeric(node.left, box_hit, item_hit);
    match node.right {
        None => {
            if box_hit(node.bbox) {
            } else {
                assert forall|k: int| 0 <= k < node.items().len() implies at_least_as_close(
                    found,
                    item_hit(#[trigger] node.items()[k]),
                ) by {
                    if item_hit(node.items()[k]) is Some {
                        assert(false);
                    }
                }
            }
        },
        Some(right) => {
            let right_items = right.items();
            let right_found = right.hit_spec(box_hit, item_hit);
            lemma_child_hit_is_closest(right, box_hit, item_hit);
            lemma_child_hit_numeric(right, box_hit, item_hit);
            lemma_closer_is_closest(left_found, right_found);
            assert forall|k: int| 0 <= k < node.items().len() implies at_least_as_close(
                found,
                item_hit(#[trigger] node.items()[k]),
            ) by {
                if item_hit(node.items()[k]) is Some {
                    assert(box_hit(node.bbox));
                    if k < left_items.len() {
                        assert(node.items()[k] == left_items[k]);
                        assert(at_least_as_close(left_found, item_hit(left_items[k])));
                    } else {
                        assert(node.items()[k] == right_items[k - left_items.len()]);
                        assert(at_least_as_close(
                            right_found,
                            item_hit(right_items[k - left_items.len()]),
                        ));
                    }
                }
            }
            if found is Some {
                if found == left_found {
                    let k = choose|k: int|
                        0 <= k < left_items.len() && left_found == item_hit(
                            #[trigger] left_items[k],
                        );
                    assert(node.items()[k] == left_items[k]);
                } else {
                    let k = choose|k: int|
                        0 <= k < right_items.len() && right_found == item_hit(
                            #[trigger] right_items[k],
                        );
                    assert(node.items()[k + left_items.len()] == right_items[k]);
                }
            }
        },
    }
}

/// The closest hit below a child is the hit of one of its items and at
/// least as close as the hit of every item below the child.
pub proof fn lemma_child_hit_is_closest(
    child: BvhChild,
    box_hit: spec_fn(BoundingBox) -> bool,
    item_hit: spec_fn(usize) -> Option<HitRecord>,
)
    requires
        numeric_hits(item_hit),
        child.conservative(box_hit, item_hit),
    ensures
        forall|k: int|
            0 <= k < child.items().len() ==> at_least_as_close(
                child.hit_spec(box_hit, item_hit),
                item_hit(#[trigger] child.items()[k]),
            ),
        child.hit_spec(box_hit, item_hit) is Some ==> exists|k: int|
            0 <= k < child.items().len() && child.hit_spec(box_hit, item_hit) == item_hit(
                #[trigger] child.items()[k],
            ),
    decreases child,
{
    match child {
        BvhChild::Item(item) => {
            assert(child.items()[0] == item);
            assert(is_numeric_hit(item_hit(item)));
        },
        BvhChild::Node(node) => {
            lemma_node_hit_is_closest(*node, box_hit, item_hit);
        },
    }
}

/// Whether a ray that meets a box meets every box around it.
pub open spec fn grows_with_box(box_hit: spec_fn(BoundingBox) -> bool) -> bool {
    forall|inner: BoundingBox, outer: BoundingBox|
        #![trigger outer.encloses(inner)]
        inner.wf() && outer.wf() && outer.encloses(inner) && box_hit(inner) ==> box_hit(outer)
}

/// Whether the ray meets the box of every item that it hits.
pub open spec fn hits_inside_boxes(
    boxes: Seq<BoundingBox>,
    box_hit: spec_fn(BoundingBox) -> bool,
    item_hit: spec_fn(usize) -> Option<HitRecord>,
) -> bool {
    forall|item: usize|
        item < boxes.len() && (#[trigger] item_hit(item)) is Some ==> box_hit(boxes[item as int])
}

/// The boxes of a hierarchy are conservative if those of its items are: if
/// the ray meets the box of every item that it hits, and a box test that
/// grows with the box, then it meets the box of every subtree below which it
/// hits an item.
pub proof fn lemma_node_is_conservative(
    node: BvhNode,
    boxes: Seq<BoundingBox>,
    box_hit: spec_fn(BoundingBox) -> bool,
    item_hit: spec_fn(usize) -> Option<HitRecord>,
)
    requires
        node.structure(boxes),
        all_wf(boxes),
        grows_with_box(box_hit),
        hits_inside_boxes(boxes, box_hit, item_hit),
    ensures
        node.conservative(box_hit, item_hit),
    decreases node,
{
    lemma_child_is_conservative(node.left, boxes, box_hit, item_hit);
    match node.right {
        None => {},
        Some(right) => {
            lemma_child_is_conservative(right, boxes, box_hit, item_hit);
        },
    }
    lemma_node_box_is_hull(node, boxes);
    if exists|k: int| 0 <= k < node.items().len() && item_hit(#[trigger] node.items()[k]) is Some {
        let k = choose|k: int|
            0 <= k < node.items().len() && item_hit(#[trigger] node.items()[k]) is Some;
        let item = node.items()[k];
        lemma_hull_encloses(node.bbox, boxes, node.items(), k);
        assert(box_hit(boxes[item as int]));
        assert(node.bbox.encloses(boxes[item as int]));
        assert(box_hit(node.bbox));
    }
}

/// The boxes below a child are conservative if those of the items are.
pub proof fn lemma_child_is_conservative(
    child: BvhChild,
    boxes: Seq<BoundingBox>,
    box_hit: spec_fn(BoundingBox) -> bool,
    item_hit: spec_fn(usize) -> Option<HitRecord>,
)
    requires
        child.structure(boxes),
        all_wf(boxes),
        grows_with_box(box_hit),
        hits_inside_boxes(boxes, box_hit, item_hit),
    ensures
        child.conservative(box_hit, item_hit),
    decreases child,
{
    match child {
        BvhChild::Item(_) => {},
        BvhChild::Node(node) => {
            lemma_node_is_conservative(*node, boxes, box_hit, item_hit);
        },
    }
}

/// A query over a hierarchy with conservative boxes ends with the closest
/// hit of all its items: with the hit of one of them, which is at least as
/// close as the hit of every other, and with none only where the ray hits no
/// item at all.
pub proof fn lemma_query_finds_closest(
    root: BvhNode,
    box_hit: spec_fn(BoundingBox) -> bool,
    item_hit: spec_fn(usize) -> Option<HitRecord>,
)
    requires
        numeric_hits(item_hit),
        root.conservative(box_hit, item_hit),
    ensures
        forall|k: int|
            0 <= k < root.items().len() ==> at_least_as_close(
                outcome(seq![Task::Node(&root)], None, box_hit, item_hit),
                item_hit(#[trigger] root.items()[k]),
            ),
        outcome(seq![Task::Node(&root)], None, box_hit, item_hit) is Some ==> exists|k: int|
            0 <= k < root.items().len() && outcome(
                seq![Task::Node(&root)],
                None,
                box_hit,
                item_hit,
            ) == item_hit(#[trigger] root.items()[k]),
{
    lemma_query_start(root, box_hit, item_hit);
    lemma_node_hit_is_closest(root, box_hit, item_hit);
}

} // verus!
