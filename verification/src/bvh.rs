use crate::geometry::BoundingBox;
use vstd::prelude::*;

verus! {

/// The most scene objects a hierarchy can index: with that many the node
/// count still fits the signed 32 bit offsets of the flat layout.
pub const MAX_OBJECTS: usize = 0x4000_0000;

/// The smallest box around all boxes of `boxes`, joined one after the other.
pub open spec fn join_all(boxes: Seq<BoundingBox>) -> BoundingBox
    decreases boxes.len(),
{
    if boxes.len() == 0 {
        BoundingBox::empty()
    } else {
        join_all(boxes.drop_last()).join(boxes.last())
    }
}

/// The boxes of the objects that the slots `first .. first + count` of the
/// object order name.
pub open spec fn slot_boxes(
    order: Seq<usize>,
    boxes: Seq<BoundingBox>,
    first: int,
    count: int,
) -> Seq<BoundingBox> {
    Seq::new(count as nat, |k: int| boxes[order[first + k] as int])
}

/// A node of the hierarchy while it is being built.
pub enum BVHBuildNode {
    /// A run of `num_objects` slots of the object order, starting at
    /// `first_object_offset`.
    Leaf { bounding_box: BoundingBox, first_object_offset: u32, num_objects: u32 },
    /// Two subtrees, split along `split_axis`.
    Interior {
        bounding_box: BoundingBox,
        split_axis: u8,
        first: Box<BVHBuildNode>,
        second: Box<BVHBuildNode>,
    },
}

impl BVHBuildNode {
    /// The box stored at the root of the tree.
    pub open spec fn bounds(&self) -> BoundingBox {
        match self {
            BVHBuildNode::Leaf { bounding_box, .. } => *bounding_box,
            BVHBuildNode::Interior { bounding_box, .. } => *bounding_box,
        }
    }

    /// The number of nodes of the tree.
    pub open spec fn count(&self) -> nat
        decreases self,
    {
        match self {
            BVHBuildNode::Leaf { .. } => 1,
            BVHBuildNode::Interior { first, second, .. } => 1 + first.count() + second.count(),
        }
    }

    /// The number of object slots under the tree.
    pub open spec fn objects(&self) -> nat
        decreases self,
    {
        match self {
            BVHBuildNode::Leaf { num_objects, .. } => *num_objects as nat,
            BVHBuildNode::Interior { first, second, .. } => first.objects() + second.objects(),
        }
    }

    /// The tree covers the slots of `order` from `start` on without gap or
    /// overlap, leaf after leaf from left to right; every leaf box is the
    /// join of the boxes of its objects and every interior box the join of
    /// the boxes of its two subtrees.
    pub open spec fn valid(&self, start: int, order: Seq<usize>, boxes: Seq<BoundingBox>) -> bool
        decreases self,
    {
        match self {
            BVHBuildNode::Leaf { bounding_box, first_object_offset, num_objects } => {
                &&& *first_object_offset == start
                &&& *num_objects >= 1
                &&& start + *num_objects <= order.len()
                &&& *bounding_box == join_all(
                    slot_boxes(order, boxes, start, *num_objects as int),
                )
            },
            BVHBuildNode::Interior { bounding_box, split_axis, first, second } => {
                &&& *split_axis < 3
                &&& first.valid(start, order, boxes)
                &&& second.valid(start + first.objects(), order, boxes)
                &&& *bounding_box == first.bounds().join(second.bounds())
            },
        }
    }

    pub fn leaf_node(offset: u32, num_objects: u32, bounding_box: BoundingBox) -> (node: Self)
        ensures
            node == (BVHBuildNode::Leaf {
                bounding_box,
                first_object_offset: offset,
                num_objects,
            }),
    {
        BVHBuildNode::Leaf { bounding_box, first_object_offset: offset, num_objects }
    }

    pub fn interior_node(axis: u8, child1: BVHBuildNode, child2: BVHBuildNode) -> (node: Self)
        ensures
            node == (BVHBuildNode::Interior {
                bounding_box: child1.bounds().join(child2.bounds()),
                split_axis: axis,
                first: Box::new(child1),
                second: Box::new(child2),
            }),
    {
        let bounding_box = child1.bounding_box().union(child2.bounding_box());
        BVHBuildNode::Interior {
            bounding_box,
            split_axis: axis,
            first: Box::new(child1),
            second: Box::new(child2),
        }
    }

    /// The box stored at the root of the tree.
    pub fn bounding_box(&self) -> (b: BoundingBox)
        ensures
            b == self.bounds(),
    {
        match self {
            BVHBuildNode::Leaf { bounding_box, .. } => *bounding_box,
            BVHBuildNode::Interior { bounding_box, .. } => *bounding_box,
        }
    }

    /// A tree has at least one node and covers at least one slot, and it
    /// never has more than two nodes per slot.
    pub proof fn lemma_size(&self, start: int, order: Seq<usize>, boxes: Seq<BoundingBox>)
        requires
            self.valid(start, order, boxes),
        ensures
            1 <= self.objects(),
            1 <= self.count() <= 2 * self.objects() - 1,
            start + self.objects() <= order.len(),
        decreases self,
    {
        match self {
            BVHBuildNode::Leaf { .. } => {},
            BVHBuildNode::Interior { first, second, .. } => {
                first.lemma_size(start, order, boxes);
                second.lemma_size(start + first.objects(), order, boxes);
            },
        }
    }
}

/// A node of the hierarchy in its flat, depth first layout.
///
/// A leaf has `num_prim > 0` and names the slots
/// `prim_offset .. prim_offset + num_prim` of the object order. An interior
/// node has `num_prim == 0`; its first child is the next node of the array
/// and its second child sits at `second_child_offset`.
#[derive(Clone, Copy, Debug, PartialEq, Eq, Structural)]
pub struct LinearBVHNode {
    pub bounding_box: BoundingBox,
    pub prim_offset: i32,
    pub second_child_offset: i32,
    pub num_prim: u32,
    pub axis: i8,
}

impl LinearBVHNode {
    pub fn new(bounding_box: BoundingBox) -> (node: Self)
        ensures
            node == (LinearBVHNode {
                bounding_box,
                prim_offset: -1i32,
                second_child_offset: -1i32,
                num_prim: 0,
                axis: -1i8,
            }),
    {
        LinearBVHNode { bounding_box, prim_offset: -1i32, second_child_offset: -1i32, num_prim: 0, axis: -1i8 }
    }
}

/// The flat node that stands for a leaf.
pub open spec fn flat_leaf(bounding_box: BoundingBox, first: u32, count: u32) -> LinearBVHNode {
    LinearBVHNode {
        bounding_box,
        prim_offset: first as i32,
        second_child_offset: -1i32,
        num_prim: count,
        axis: -1i8,
    }
}

/// The flat node that stands for an interior node.
pub open spec fn flat_interior(bounding_box: BoundingBox, axis: u8, second: int) -> LinearBVHNode {
    LinearBVHNode {
        bounding_box,
        prim_offset: -1i32,
        second_child_offset: second as i32,
        num_prim: 0,
        axis: axis as i8,
    }
}

/// The nodes from index `at` on are the depth first layout of `tree`: the
/// root first, then the whole first subtree, then the whole second one.
pub open spec fn mirrors(nodes: Seq<LinearBVHNode>, at: int, tree: BVHBuildNode) -> bool
    decreases tree,
{
    &&& 0 <= at
    &&& at + tree.count() <= nodes.len()
    &&& match tree {
        BVHBuildNode::Leaf { bounding_box, first_object_offset, num_objects } => {
            nodes[at] == flat_leaf(bounding_box, first_object_offset, num_objects)
        },
        BVHBuildNode::Interior { bounding_box, split_axis, first, second } => {
            &&& nodes[at] == flat_interior(bounding_box, split_axis, at + 1 + first.count())
            &&& mirrors(nodes, at + 1, *first)
            &&& mirrors(nodes, at + 1 + first.count(), *second)
        },
    }
}

/// The layout rule of the flat hierarchy, for the subtree that occupies the
/// nodes `at .. end`: a leaf is alone in its range and names slots below
/// `slots`; the first child of an interior node follows it directly, the
/// second child starts after the first subtree and before `end`, and each
/// child obeys the rule on its own part of the range.
pub open spec fn layout(nodes: Seq<LinearBVHNode>, at: int, end: int, slots: int) -> bool
    decreases end - at,
{
    &&& 0 <= at < end <= nodes.len()
    &&& if nodes[at].num_prim > 0 {
        &&& end == at + 1
        &&& 0 <= nodes[at].prim_offset
        &&& nodes[at].prim_offset + nodes[at].num_prim <= slots
    } else {
        let second = nodes[at].second_child_offset as int;
        &&& at + 1 < second < end
        &&& 0 <= nodes[at].axis < 3
        &&& layout(nodes, at + 1, second, slots)
        &&& layout(nodes, second, end, slots)
    }
}

/// The indices that a depth first walk of the subtree at `at .. end`
/// visits, in the order of the visits.
pub open spec fn walk(nodes: Seq<LinearBVHNode>, at: int, end: int) -> Seq<int>
    decreases end - at,
{
    if 0 <= at < end <= nodes.len() && nodes[at].num_prim == 0 && at + 1
        < nodes[at].second_child_offset < end {
        let second = nodes[at].second_child_offset as int;
        seq![at] + walk(nodes, at + 1, second) + walk(nodes, second, end)
    } else {
        seq![at]
    }
}

/// A depth first walk from the root of a subtree that obeys the layout rule
/// visits every index of its range exactly once, in rising order.
pub proof fn lemma_walk_visits_each_slot_once(
    nodes: Seq<LinearBVHNode>,
    at: int,
    end: int,
    slots: int,
)
    requires
        layout(nodes, at, end, slots),
    ensures
        walk(nodes, at, end) == Seq::new((end - at) as nat, |k: int| at + k),
    decreases end - at,
{
    if nodes[at].num_prim == 0 {
        let second = nodes[at].second_child_offset as int;
        lemma_walk_visits_each_slot_once(nodes, at + 1, second, slots);
        lemma_walk_visits_each_slot_once(nodes, second, end, slots);
    }
}

/// The number of object slots that the leaves of the subtree at
/// `at .. end` name.
pub open spec fn slot_count(nodes: Seq<LinearBVHNode>, at: int, end: int) -> int
    decreases end - at,
{
    if 0 <= at < end <= nodes.len() && nodes[at].num_prim == 0 && at + 1
        < nodes[at].second_child_offset < end {
        let second = nodes[at].second_child_offset as int;
        slot_count(nodes, at + 1, second) + slot_count(nodes, second, end)
    } else if 0 <= at < nodes.len() {
        nodes[at].num_prim as int
    } else {
        0
    }
}

/// The leaves of the subtree at `at .. end`, from left to right, name the
/// slots of the object order from `start` on without gap or overlap; every
/// leaf box is the join of the boxes of its objects and every interior box
/// the join of the boxes of its two children.
pub open spec fn covers(
    nodes: Seq<LinearBVHNode>,
    at: int,
    end: int,
    start: int,
    order: Seq<usize>,
    boxes: Seq<BoundingBox>,
) -> bool
    decreases end - at,
{
    &&& 0 <= at < end <= nodes.len()
    &&& if nodes[at].num_prim > 0 {
        &&& nodes[at].prim_offset == start
        &&& nodes[at].bounding_box == join_all(
            slot_boxes(order, boxes, start, nodes[at].num_prim as int),
        )
    } else {
        let second = nodes[at].second_child_offset as int;
        &&& at + 1 < second < end
        &&& covers(nodes, at + 1, second, start, order, boxes)
        &&& covers(nodes, second, end, start + slot_count(nodes, at + 1, second), order, boxes)
        &&& nodes[at].bounding_box == nodes[at + 1].bounding_box.join(nodes[second].bounding_box)
    }
}

/// The join of the boxes of all leaves of the subtree at `at .. end`.
pub open spec fn leaf_join(nodes: Seq<LinearBVHNode>, at: int, end: int) -> BoundingBox
    decreases end - at,
{
    if 0 <= at < end <= nodes.len() && nodes[at].num_prim == 0 && at + 1
        < nodes[at].second_child_offset < end {
        let second = nodes[at].second_child_offset as int;
        leaf_join(nodes, at + 1, second).join(leaf_join(nodes, second, end))
    } else if 0 <= at < nodes.len() {
        nodes[at].bounding_box
    } else {
        BoundingBox::empty()
    }
}

/// Two node arrays that agree on the range of a mirrored tree mirror it
/// both.
pub proof fn lemma_mirrors_frame(
    before: Seq<LinearBVHNode>,
    after: Seq<LinearBVHNode>,
    at: int,
    tree: BVHBuildNode,
)
    requires
        mirrors(before, at, tree),
        before.len() == after.len(),
        forall|k: int| at <= k < at + tree.count() ==> before[k] == after[k],
    ensures
        mirrors(after, at, tree),
    decreases tree,
{
    match tree {
        BVHBuildNode::Leaf { .. } => {},
        BVHBuildNode::Interior { first, second, .. } => {
            lemma_mirrors_frame(before, after, at + 1, *first);
            lemma_mirrors_frame(before, after, at + 1 + first.count(), *second);
        },
    }
}

/// The flat layout of a valid tree obeys the layout rule, covers the same
/// slots with the same boxes, and carries the root box at its first node.
pub proof fn lemma_mirror_of_valid_tree(
    nodes: Seq<LinearBVHNode>,
    at: int,
    tree: BVHBuildNode,
    start: int,
    order: Seq<usize>,
    boxes: Seq<BoundingBox>,
)
    requires
        mirrors(nodes, at, tree),
        tree.valid(start, order, boxes),
        at + tree.count() <= 0x7fff_ffff,
        order.len() <= 0x7fff_ffff,
    ensures
        layout(nodes, at, at + tree.count(), order.len() as int),
        covers(nodes, at, at + tree.count(), start, order, boxes),
        slot_count(nodes, at, at + tree.count()) == tree.objects(),
        nodes[at].bounding_box == tree.bounds(),
    decreases tree,
{
    match tree {
        BVHBuildNode::Leaf { .. } => {},
        BVHBuildNode::Interior { first, second, .. } => {
            lemma_mirror_of_valid_tree(nodes, at + 1, *first, start, order, boxes);
            lemma_mirror_of_valid_tree(
                nodes,
                at + 1 + first.count(),
                *second,
                start + first.objects(),
                order,
                boxes,
            );
        },
    }
}

/// In a subtree whose leaves and interior nodes carry the boxes that
/// `covers` asks for, the box of the root is the join of all leaf boxes.
pub proof fn lemma_root_box_is_leaf_join(
    nodes: Seq<LinearBVHNode>,
    at: int,
    end: int,
    start: int,
    order: Seq<usize>,
    boxes: Seq<BoundingBox>,
)
    requires
        covers(nodes, at, end, start, order, boxes),
    ensures
        nodes[at].bounding_box == leaf_join(nodes, at, end),
    decreases end - at,
{
    if nodes[at].num_prim == 0 {
        let second = nodes[at].second_child_offset as int;
        lemma_root_box_is_leaf_join(nodes, at + 1, second, start, order, boxes);
        lemma_root_box_is_leaf_join(
            nodes,
            second,
            end,
            start + slot_count(nodes, at + 1, second),
            order,
            boxes,
        );
    }
}

/// Writes the depth first layout of `build_node` into `nodes`, starting at
/// `*offset`, and returns the index of the root.
pub fn flatten_bvh_tree(
    build_node: &BVHBuildNode,
    offset: &mut usize,
    nodes: &mut Vec<LinearBVHNode>,
) -> (at: u32)
    requires
        *old(offset) + build_node.count() <= old(nodes).len() <= 0x7fff_ffff,
    ensures
        at == *old(offset),
        *final(offset) == *old(offset) + build_node.count(),
        final(nodes).len() == old(nodes).len(),
        mirrors(final(nodes)@, at as int, *build_node),
        forall|k: int|
            0 <= k < old(nodes).len() && !(*old(offset) <= k < *final(offset)) ==> final(nodes)@[k]
                == old(nodes)@[k],
    decreases build_node,
{
    let current_offset: usize = *offset;
    *offset += 1;
    match build_node {
        BVHBuildNode::Leaf { bounding_box, first_object_offset, num_objects } => {
            nodes.set(
                current_offset,
                LinearBVHNode {
                    bounding_box: *bounding_box,
                    prim_offset: *first_object_offset as i32,
                    second_child_offset: -1,
                    num_prim: *num_objects,
                    axis: -1,
                },
            );
        },
        BVHBuildNode::Interior { bounding_box, split_axis, first, second } => {
            flatten_bvh_tree(first, offset, nodes);
            let ghost between = nodes@;
            let second_child_offset = flatten_bvh_tree(second, offset, nodes);
            proof {
                lemma_mirrors_frame(between, nodes@, current_offset + 1, **first);
            }
            let ghost below = nodes@;
            nodes.set(
                current_offset,
                LinearBVHNode {
                    bounding_box: *bounding_box,
                    prim_offset: -1,
                    second_child_offset: second_child_offset as i32,
                    num_prim: 0,
                    axis: *split_axis as i8,
                },
            );
            proof {
                lemma_mirrors_frame(below, nodes@, current_offset + 1, **first);
                lemma_mirrors_frame(below, nodes@, current_offset + 1 + first.count(), **second);
            }
        },
    }
    current_offset as u32
}

} // verus!
