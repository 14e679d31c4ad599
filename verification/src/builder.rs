use crate::bvh::{
    covers, flatten_bvh_tree, join_all, layout, leaf_join, lemma_mirror_of_valid_tree,
    lemma_root_box_is_leaf_join, mirrors, slot_boxes, slot_count, BVHBuildNode, LinearBVHNode,
    MAX_OBJECTS,
};
use crate::geometry::BoundingBox;
use crate::records::{
    all_in_range, center_bounds, center_boxes, distinct_numbers, info_boxes, infos_fit,
    lemma_join_all_attained, lemma_join_all_encloses, lemma_same_records_fit, midpoint,
    range_bounds, same_records, sort_range, sorted_by, unmoved, BVHInfo,
};
use crate::sah::{cost_split_outcome, split_by_cost};
use crate::scene::{object_boxes, objects_wf, searchable, SceneObject};
use vstd::prelude::*;
use vstd::set_lib::{lemma_int_range, lemma_subset_equality, set_int_range};

verus! {

/// Every object has a legal, inhabited box.
pub open spec fn boxes_wf(objects: Seq<SceneObject>) -> bool {
    forall|i: int|
        0 <= i < objects.len() ==> (#[trigger] objects[i]).bounding_box.in_range()
            && objects[i].bounding_box.inhabited()
}

/// Appends the object numbers of the records `start .. end` to the object
/// order and returns the leaf for them.
fn emit_leaf(
    infos: &Vec<BVHInfo>,
    start: usize,
    end: usize,
    ordered_scene_object: &mut Vec<usize>,
    bounds: BoundingBox,
    Ghost(boxes): Ghost<Seq<BoundingBox>>,
) -> (node: BVHBuildNode)
    requires
        start < end <= infos.len() <= MAX_OBJECTS,
        old(ordered_scene_object).len() == start,
        infos_fit(infos@, boxes),
        bounds == join_all(info_boxes(infos@, start as int, end - start)),
    ensures
        node == (BVHBuildNode::Leaf {
            bounding_box: bounds,
            first_object_offset: start as u32,
            num_objects: (end - start) as u32,
        }),
        node.valid(start as int, final(ordered_scene_object)@, boxes),
        final(ordered_scene_object)@.len() == end,
        forall|k: int|
            0 <= k < start ==> final(ordered_scene_object)@[k] == old(ordered_scene_object)@[k],
        forall|k: int|
            start <= k < end ==> final(ordered_scene_object)@[k] == infos@[k].primitive_number,
{
    let first_offset: u32 = ordered_scene_object.len() as u32;
    let mut i: usize = start;
    while i < end
        invariant
            start <= i <= end <= infos.len(),
            ordered_scene_object.len() == i,
            forall|k: int|
                0 <= k < start ==> ordered_scene_object@[k] == old(ordered_scene_object)@[k],
            forall|k: int| start <= k < i ==> ordered_scene_object@[k] == infos@[k].primitive_number,
        decreases end - i,
    {
        let object_index = infos[i].primitive_number;
        ordered_scene_object.push(object_index);
        i += 1;
    }
    proof {
        lemma_leaf_boxes(infos@, start as int, end as int, ordered_scene_object@, boxes);
    }
    BVHBuildNode::leaf_node(first_offset, (end - start) as u32, bounds)
}

/// A tree that is valid for one object order is valid for every order that
/// agrees with it on the slots of the tree.
pub proof fn lemma_valid_frame(
    tree: BVHBuildNode,
    start: int,
    before: Seq<usize>,
    after: Seq<usize>,
    boxes: Seq<BoundingBox>,
)
    requires
        tree.valid(start, before, boxes),
        0 <= start,
        before.len() <= after.len(),
        forall|k: int| start <= k < start + tree.objects() ==> before[k] == after[k],
    ensures
        tree.valid(start, after, boxes),
    decreases tree,
{
    match tree {
        BVHBuildNode::Leaf { num_objects, .. } => {
            assert(slot_boxes(before, boxes, start, num_objects as int) =~= slot_boxes(
                after,
                boxes,
                start,
                num_objects as int,
            ));
        },
        BVHBuildNode::Interior { first, second, .. } => {
            lemma_valid_frame(*first, start, before, after, boxes);
            lemma_valid_frame(*second, start + first.objects(), before, after, boxes);
        },
    }
}

/// The boxes that the slots of a freshly written leaf name are the boxes
/// of the records that were written.
pub proof fn lemma_leaf_boxes(
    infos: Seq<BVHInfo>,
    start: int,
    end: int,
    order: Seq<usize>,
    boxes: Seq<BoundingBox>,
)
    requires
        0 <= start <= end <= infos.len(),
        end <= order.len(),
        infos_fit(infos, boxes),
        forall|k: int| start <= k < end ==> order[k] == infos[k].primitive_number,
    ensures
        slot_boxes(order, boxes, start, end - start) == info_boxes(infos, start, end - start),
{
}

/// What the choice of a split does to the records `start .. end` and what
/// it answers.
///
/// The split axis is the longest axis of the bounds of the centres. When
/// all centres coincide along it the range stays one leaf and nothing is
/// touched. A range of up to four records is sorted by centre along the
/// axis and split in the middle. A longer range is split by estimated
/// cost.
pub open spec fn split_outcome(
    before: Seq<BVHInfo>,
    after: Seq<BVHInfo>,
    objects: Seq<SceneObject>,
    start: int,
    end: int,
    bounds: BoundingBox,
    plan: Option<(u8, usize)>,
) -> bool {
    let centres = join_all(center_boxes(before, start, end - start));
    let dim = centres.longest_axis();
    if centres.extent(dim) == 0 {
        plan is None && after == before
    } else if end - start <= 4 {
        &&& plan == Some((dim as u8, (start + (end - start) / 2) as usize))
        &&& same_records(before, after, start, end)
        &&& sorted_by(after, start, end, dim as u8)
    } else {
        &&& plan matches Some(p) ==> p.0 == dim
        &&& cost_split_outcome(
            before,
            after,
            objects,
            start,
            end,
            centres,
            dim,
            bounds,
            place_of(plan),
        )
    }
}

/// The place where the second part of a planned split begins.
pub open spec fn place_of(plan: Option<(u8, usize)>) -> Option<usize> {
    match plan {
        None => None,
        Some(p) => Some(p.1),
    }
}

/// Decides how the range `start .. end` of two or more records is split.
///
/// Returns `None` when the range is to stay one leaf: when all centres
/// coincide along the longest axis of their bounds, or when the cost
/// estimate says so. Otherwise reorders the records and returns the split
/// axis and the place where the second part begins: the middle of the
/// range sorted by centre for up to four records, the split by estimated
/// cost for more.
pub fn choose_split(
    infos: &mut Vec<BVHInfo>,
    start: usize,
    end: usize,
    bounds: BoundingBox,
    scene_objects: &[SceneObject],
) -> (plan: Option<(u8, usize)>)
    requires
        start + 2 <= end <= old(infos).len(),
        old(infos).len() == scene_objects@.len(),
        scene_objects@.len() <= MAX_OBJECTS,
        infos_fit(old(infos)@, object_boxes(scene_objects@)),
        distinct_numbers(old(infos)@),
        bounds.in_range(),
    ensures
        final(infos).len() == old(infos).len(),
        infos_fit(final(infos)@, object_boxes(scene_objects@)),
        distinct_numbers(final(infos)@),
        forall|k: int|
            0 <= k < old(infos).len() && !(start <= k < end) ==> #[trigger] final(infos)@[k]
                == old(infos)@[k],
        plan is None ==> unmoved(old(infos)@, final(infos)@, start as int, end as int),
        plan matches Some(p) ==> start < p.1 < end && p.0 < 3,
        split_outcome(
            old(infos)@,
            final(infos)@,
            scene_objects@,
            start as int,
            end as int,
            bounds,
            plan,
        ),
{
    let ghost boxes = object_boxes(scene_objects@);
    let ghost given = infos@;
    let center_bounds = center_bounds(infos, start, end);
    proof {
        let centres = center_boxes(given, start as int, end - start);
        lemma_join_all_encloses(centres);
    }
    let dim: u8 = center_bounds.maximum_extent();
    if center_bounds.lower.get(dim) == center_bounds.upper.get(dim) {
        return None;
    }
    if end - start <= 4 {
        sort_range(infos, start, end, dim);
        proof {
            lemma_same_records_fit(given, infos@, start as int, end as int, boxes);
        }
        return Some((dim, start + (end - start) / 2));
    }
    match split_by_cost(infos, start, end, center_bounds, dim, bounds, scene_objects) {
        None => None,
        Some(mid) => Some((dim, mid)),
    }
}

/// The states that the records went through while a tree was grown over
/// them: for every interior node the records after its split was chosen,
/// the records after its first part was grown, and the place of the split.
pub enum Growth {
    Leaf,
    Interior {
        split: Seq<BVHInfo>,
        between: Seq<BVHInfo>,
        mid: int,
        first: Box<Growth>,
        second: Box<Growth>,
    },
}

/// The tree was grown over the records `start .. end`, which went from
/// `before` to `after` through the states of `growth`.
///
/// One record makes a leaf. For more, the split is chosen as
/// `split_outcome` says: without a split the range makes a leaf, with one
/// the two parts are grown one after the other, the first part first, and
/// joined under an interior node with the split axis. The box of a leaf is
/// the join of the boxes of its records, the box of an interior node the
/// join of the boxes of its children.
pub open spec fn grown(
    tree: BVHBuildNode,
    growth: Growth,
    before: Seq<BVHInfo>,
    after: Seq<BVHInfo>,
    objects: Seq<SceneObject>,
    start: int,
    end: int,
) -> bool
    decreases tree,
{
    let bounds = join_all(info_boxes(before, start, end - start));
    match tree {
        BVHBuildNode::Leaf { bounding_box, first_object_offset, num_objects } => {
            &&& growth is Leaf
            &&& bounding_box == bounds
            &&& first_object_offset == start
            &&& num_objects == end - start
            &&& if end - start == 1 {
                after == before
            } else {
                split_outcome(before, after, objects, start, end, bounds, None)
            }
        },
        BVHBuildNode::Interior { bounding_box, split_axis, first, second } => {
            &&& growth is Interior
            &&& end - start >= 2
            &&& bounding_box == first.bounds().join(second.bounds())
            &&& start < growth->mid < end
            &&& split_outcome(
                before,
                growth->split,
                objects,
                start,
                end,
                bounds,
                Some((split_axis, growth->mid as usize)),
            )
            &&& grown(
                *first,
                *growth->first,
                growth->split,
                growth->between,
                objects,
                start,
                growth->mid,
            )
            &&& grown(
                *second,
                *growth->second,
                growth->between,
                after,
                objects,
                growth->mid,
                end,
            )
        },
    }
}

/// The records that the build starts from: one per object, in the order
/// of the objects, with the object's box and the middle of the box.
pub open spec fn first_records(objects: Seq<SceneObject>) -> Seq<BVHInfo> {
    Seq::new(
        objects.len(),
        |i: int|
            BVHInfo {
                primitive_number: i as usize,
                bounding_box: objects[i].bounding_box,
                center: midpoint(objects[i].bounding_box),
                section: 0,
            },
    )
}

/// The hierarchy is the flat layout of a tree grown over all objects, and
/// the object order lists the objects in the order in which the records
/// lay when the tree was grown.
pub open spec fn grown_from(
    objects: Seq<SceneObject>,
    nodes: Seq<LinearBVHNode>,
    order: Seq<usize>,
) -> bool {
    exists|tree: BVHBuildNode, growth: Growth, records: Seq<BVHInfo>|
        {
            &&& #[trigger] grown(
                tree,
                growth,
                first_records(objects),
                records,
                objects,
                0,
                objects.len() as int,
            )
            &&& mirrors(nodes, 0, tree)
            &&& records.len() == order.len()
            &&& forall|k: int|
                0 <= k < order.len() ==> order[k] == (#[trigger] records[k]).primitive_number
        }
}

/// Builds the subtree over the records `start .. end`: reorders them,
/// appends their object numbers to the object order leaf by leaf, counts
/// the nodes it makes, and returns the subtree.
pub fn recursive_build_nodes(
    bvh_info: &mut Vec<BVHInfo>,
    start: usize,
    end: usize,
    total_nodes: &mut usize,
    scene_objects: &[SceneObject],
    ordered_scene_object: &mut Vec<usize>,
) -> (node: BVHBuildNode)
    requires
        start < end <= old(bvh_info).len(),
        old(bvh_info).len() == scene_objects@.len(),
        scene_objects@.len() <= MAX_OBJECTS,
        old(ordered_scene_object).len() == start,
        infos_fit(old(bvh_info)@, object_boxes(scene_objects@)),
        distinct_numbers(old(bvh_info)@),
        *old(total_nodes) + 2 * (end - start) <= 2 * MAX_OBJECTS,
    ensures
        final(bvh_info).len() == old(bvh_info).len(),
        infos_fit(final(bvh_info)@, object_boxes(scene_objects@)),
        distinct_numbers(final(bvh_info)@),
        forall|k: int|
            0 <= k < old(bvh_info).len() && !(start <= k < end) ==> #[trigger] final(bvh_info)@[k]
                == old(bvh_info)@[k],
        final(ordered_scene_object)@.len() == end,
        forall|k: int|
            0 <= k < start ==> final(ordered_scene_object)@[k] == old(ordered_scene_object)@[k],
        forall|k: int|
            start <= k < end ==> final(ordered_scene_object)@[k]
                == final(bvh_info)@[k].primitive_number,
        node.valid(start as int, final(ordered_scene_object)@, object_boxes(scene_objects@)),
        node.objects() == end - start,
        *final(total_nodes) == *old(total_nodes) + node.count(),
        exists|growth: Growth|
            grown(
                node,
                growth,
                old(bvh_info)@,
                final(bvh_info)@,
                scene_objects@,
                start as int,
                end as int,
            ),
    decreases end - start,
{
    let ghost boxes = object_boxes(scene_objects@);
    let ghost given = bvh_info@;
    *total_nodes += 1;
    let num_objects: usize = end - start;
    let bounds = range_bounds(bvh_info, start, end);
    if num_objects == 1 {
        let leaf = emit_leaf(bvh_info, start, end, ordered_scene_object, bounds, Ghost(boxes));
        assert(grown(
            leaf,
            Growth::Leaf,
            given,
            bvh_info@,
            scene_objects@,
            start as int,
            end as int,
        ));
        return leaf;
    }
    proof {
        let items = info_boxes(given, start as int, end - start);
        lemma_join_all_encloses(items);
    }
    match choose_split(bvh_info, start, end, bounds, scene_objects) {
        None => {
            proof {
                assert(info_boxes(bvh_info@, start as int, end - start) =~= info_boxes(
                    given,
                    start as int,
                    end - start,
                ));
            }
            let leaf = emit_leaf(bvh_info, start, end, ordered_scene_object, bounds, Ghost(boxes));
            assert(grown(
                leaf,
                Growth::Leaf,
                given,
                bvh_info@,
                scene_objects@,
                start as int,
                end as int,
            ));
            leaf
        },
        Some((dim, mid)) => {
            let ghost split = bvh_info@;
            let first = recursive_build_nodes(
                bvh_info,
                start,
                mid,
                total_nodes,
                scene_objects,
                ordered_scene_object,
            );
            let ghost halfway = ordered_scene_object@;
            let ghost between = bvh_info@;
            proof {
                first.lemma_size(start as int, halfway, boxes);
            }
            let second = recursive_build_nodes(
                bvh_info,
                mid,
                end,
                total_nodes,
                scene_objects,
                ordered_scene_object,
            );
            proof {
                lemma_valid_frame(first, start as int, halfway, ordered_scene_object@, boxes);
            }
            let node = BVHBuildNode::interior_node(dim, first, second);
            proof {
                let objects = scene_objects@;
                let first_growth = choose|g: Growth|
                    grown(first, g, split, between, objects, start as int, mid as int);
                let second_growth = choose|g: Growth|
                    grown(second, g, between, bvh_info@, objects, mid as int, end as int);
                let growth = Growth::Interior {
                    split,
                    between,
                    mid: mid as int,
                    first: Box::new(first_growth),
                    second: Box::new(second_growth),
                };
                assert(grown(node, growth, given, bvh_info@, objects, start as int, end as int));
            }
            node
        },
    }
}

/// `order` names every one of `count` objects: it has `count` entries,
/// each below `count`, and no entry twice.
pub open spec fn is_object_order(order: Seq<usize>, count: int) -> bool {
    &&& order.len() == count
    &&& forall|j: int| 0 <= j < order.len() ==> (#[trigger] order[j]) < count
    &&& forall|i: int, j: int|
        0 <= i < order.len() && 0 <= j < order.len() && i != j ==> (#[trigger] order[i])
            != (#[trigger] order[j])
}

/// In an object order every object number appears, and at one place only.
pub proof fn lemma_every_object_appears_once(order: Seq<usize>, object: int) -> (place: int)
    requires
        is_object_order(order, order.len() as int),
        0 <= object < order.len(),
    ensures
        0 <= place < order.len(),
        order[place] == object,
        forall|j: int| 0 <= j < order.len() && order[j] == object ==> j == place,
{
    let numbers = Seq::new(order.len(), |j: int| order[j] as int);
    let all = set_int_range(0, order.len() as int);
    numbers.unique_seq_to_set();
    lemma_int_range(0, order.len() as int);
    lemma_subset_equality(numbers.to_set(), all);
    assert(all.contains(object));
    let place = choose|j: int| 0 <= j < numbers.len() && numbers[j] == object;
    place
}

/// Joining two runs of legal boxes one after the other gives the join of
/// the two joins.
pub proof fn lemma_join_concat(a: Seq<BoundingBox>, b: Seq<BoundingBox>)
    requires
        all_in_range(a),
        all_in_range(b),
    ensures
        join_all(a + b) == join_all(a).join(join_all(b)),
    decreases b.len(),
{
    if b.len() > 0 {
        assert((a + b).drop_last() =~= a + b.drop_last());
        lemma_join_concat(a, b.drop_last());
    }
}

/// The box at the root of a valid tree is the join of the boxes of all
/// objects under it.
pub proof fn lemma_tree_bounds(
    tree: BVHBuildNode,
    start: int,
    order: Seq<usize>,
    boxes: Seq<BoundingBox>,
)
    requires
        tree.valid(start, order, boxes),
        0 <= start,
        all_in_range(boxes),
        forall|k: int| 0 <= k < order.len() ==> (#[trigger] order[k]) < boxes.len(),
    ensures
        tree.bounds() == join_all(slot_boxes(order, boxes, start, tree.objects() as int)),
    decreases tree,
{
    tree.lemma_size(start, order, boxes);
    match tree {
        BVHBuildNode::Leaf { .. } => {},
        BVHBuildNode::Interior { first, second, .. } => {
            lemma_tree_bounds(*first, start, order, boxes);
            lemma_tree_bounds(*second, start + first.objects(), order, boxes);
            let left = slot_boxes(order, boxes, start, first.objects() as int);
            let right = slot_boxes(
                order,
                boxes,
                start + first.objects(),
                second.objects() as int,
            );
            assert(slot_boxes(order, boxes, start, tree.objects() as int) =~= left + right);
            lemma_join_concat(left, right);
        },
    }
}

/// The join of the object boxes does not depend on the order in which the
/// objects are taken.
pub proof fn lemma_join_in_any_order(order: Seq<usize>, boxes: Seq<BoundingBox>)
    requires
        is_object_order(order, boxes.len() as int),
        boxes.len() >= 1,
        all_in_range(boxes),
    ensures
        join_all(slot_boxes(order, boxes, 0, boxes.len() as int)) == join_all(boxes),
{
    let taken = slot_boxes(order, boxes, 0, boxes.len() as int);
    let a = join_all(taken);
    let b = join_all(boxes);
    lemma_join_all_encloses(taken);
    lemma_join_all_encloses(boxes);
    assert forall|axis: int| 0 <= axis < 3 implies a.lower.component(axis) == b.lower.component(
        axis,
    ) && a.upper.component(axis) == b.upper.component(axis) by {
        lemma_join_all_attained(taken, axis);
        lemma_join_all_attained(boxes, axis);
        let kb = choose|k: int|
            0 <= k < boxes.len() && b.lower.component(axis) == (#[trigger] boxes[k]).lower.component(
                axis,
            );
        let jb = lemma_every_object_appears_once(order, kb);
        assert(a.encloses(taken[jb]));
        let ub = choose|k: int|
            0 <= k < boxes.len() && b.upper.component(axis) == (#[trigger] boxes[k]).upper.component(
                axis,
            );
        let vb = lemma_every_object_appears_once(order, ub);
        assert(a.encloses(taken[vb]));
    }
    assert(a.lower.component(0) == b.lower.component(0));
    assert(a.lower.component(1) == b.lower.component(1));
    assert(a.lower.component(2) == b.lower.component(2));
}

/// What a finished hierarchy over `objects` is: the object order names
/// every object once; the nodes obey the layout rule; the leaves, from left
/// to right, cover the object order without gap or overlap; every leaf box
/// is the join of the boxes of its objects and every interior box the join
/// of its children's; and the root box, like the join of all leaf boxes, is
/// the join of the boxes of all objects.
pub open spec fn built(
    objects: Seq<SceneObject>,
    nodes: Seq<LinearBVHNode>,
    order: Seq<usize>,
) -> bool {
    let boxes = object_boxes(objects);
    &&& is_object_order(order, objects.len() as int)
    &&& 1 <= nodes.len() <= 2 * objects.len() - 1
    &&& layout(nodes, 0, nodes.len() as int, order.len() as int)
    &&& covers(nodes, 0, nodes.len() as int, 0, order, boxes)
    &&& slot_count(nodes, 0, nodes.len() as int) == objects.len()
    &&& nodes[0].bounding_box == join_all(boxes)
    &&& leaf_join(nodes, 0, nodes.len() as int) == join_all(boxes)
}

/// Builds the hierarchy over the boxes of `scene_objects`: the flat node
/// array and the object order that its leaves index.
pub fn build_bvh(scene_objects: &[SceneObject]) -> (result: (Vec<LinearBVHNode>, Vec<usize>))
    requires
        1 <= scene_objects@.len() <= MAX_OBJECTS,
        boxes_wf(scene_objects@),
    ensures
        built(scene_objects@, result.0@, result.1@),
        grown_from(scene_objects@, result.0@, result.1@),
        objects_wf(scene_objects@) ==> searchable(scene_objects@, result.0@, result.1@),
{
    let ghost boxes = object_boxes(scene_objects@);
    let mut bvh_info_collection: Vec<BVHInfo> = Vec::new();
    let mut i: usize = 0;
    while i < scene_objects.len()
        invariant
            i <= scene_objects@.len(),
            boxes_wf(scene_objects@),
            bvh_info_collection.len() == i,
            forall|k: int|
                0 <= k < i ==> (#[trigger] bvh_info_collection@[k]).fits(
                    object_boxes(scene_objects@),
                ) && bvh_info_collection@[k].primitive_number == k
                    && bvh_info_collection@[k].section == 0,
        decreases scene_objects@.len() - i,
    {
        let bvh_info = BVHInfo::new(i, scene_objects[i].bounding_box);
        bvh_info_collection.push(bvh_info);
        i += 1;
    }
    assert(bvh_info_collection@ =~= first_records(scene_objects@));
    let mut total_nodes: usize = 0;
    let mut ordered_scene_object: Vec<usize> = Vec::new();
    let root = recursive_build_nodes(
        &mut bvh_info_collection,
        0,
        scene_objects.len(),
        &mut total_nodes,
        scene_objects,
        &mut ordered_scene_object,
    );
    proof {
        root.lemma_size(0, ordered_scene_object@, boxes);
    }
    let mut nodes: Vec<LinearBVHNode> = Vec::new();
    let mut made: usize = 0;
    while made < total_nodes
        invariant
            made <= total_nodes,
            nodes.len() == made,
        decreases total_nodes - made,
    {
        nodes.push(LinearBVHNode::new(BoundingBox::new()));
        made += 1;
    }
    let mut offset: usize = 0;
    flatten_bvh_tree(&root, &mut offset, &mut nodes);
    proof {
        let order = ordered_scene_object@;
        lemma_mirror_of_valid_tree(nodes@, 0, root, 0, order, boxes);
        lemma_root_box_is_leaf_join(nodes@, 0, nodes@.len() as int, 0, order, boxes);
        lemma_tree_bounds(root, 0, order, boxes);
        lemma_join_in_any_order(order, boxes);
    }
    (nodes, ordered_scene_object)
}

} // verus!
