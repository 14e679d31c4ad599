use path_tracer::builder::{build_bvh, choose_split, recursive_build_nodes};
use path_tracer::bvh::{flatten_bvh_tree, BVHBuildNode, LinearBVHNode};
use path_tracer::geometry::{BoundingBox, Mesh};
use path_tracer::records::{center_bounds, range_bounds, sort_range, BVHInfo};
use path_tracer::sah::{
    cheapest_split, cost_of_split, pays, side_totals, split_by_cost, Section,
};
use path_tracer::scene::SceneObject;
use path_tracer::vector::Vector;

fn object_at(x: i64, y: i64, z: i64, half: i64, tris: u32) -> SceneObject {
    let mesh = Mesh { vertices: Vec::new(), indices: Vec::new(), num_tris: tris };
    let bounding_box = BoundingBox {
        lower: Vector::vec3(x - half, y - half, z - half),
        upper: Vector::vec3(x + half, y + half, z + half),
    };
    SceneObject::new(mesh, 0, bounding_box)
}

fn row(count: usize, step: i64, tris: u32) -> Vec<SceneObject> {
    (0..count).map(|i| object_at(i as i64 * step, 0, 0, 1, tris)).collect()
}

fn scattered(count: usize) -> Vec<SceneObject> {
    let mut seed: u64 = 12345;
    let mut next = move || {
        seed = seed.wrapping_mul(6364136223846793005).wrapping_add(1442695040888963407);
        ((seed >> 33) % 2001) as i64 - 1000
    };
    (0..count).map(|_| object_at(next(), next(), next(), 3, 2)).collect()
}

fn join(boxes: &[BoundingBox]) -> BoundingBox {
    let mut b = BoundingBox::new();
    for other in boxes {
        b = b.union(*other);
    }
    b
}

/// Walks the subtree at `at`, checks the layout on the way, and returns the
/// index after the subtree. Collects the visited indices and the leaves.
fn walk(nodes: &[LinearBVHNode], at: usize, visited: &mut Vec<usize>, leaves: &mut Vec<usize>) -> usize {
    visited.push(at);
    let node = nodes[at];
    if node.num_prim > 0 {
        assert!(node.prim_offset >= 0);
        leaves.push(at);
        at + 1
    } else {
        assert!((0..3).contains(&node.axis));
        let second = node.second_child_offset as usize;
        assert!(second > at + 1);
        assert!(second < nodes.len());
        let after_first = walk(nodes, at + 1, visited, leaves);
        assert_eq!(after_first, second);
        let after_second = walk(nodes, second, visited, leaves);
        assert_eq!(
            node.bounding_box,
            nodes[at + 1].bounding_box.union(nodes[second].bounding_box)
        );
        after_second
    }
}

fn check_hierarchy(objects: &[SceneObject], nodes: &[LinearBVHNode], order: &[usize]) {
    let mut sorted = order.to_vec();
    sorted.sort();
    assert_eq!(sorted, (0..objects.len()).collect::<Vec<_>>());

    let mut visited = Vec::new();
    let mut leaves = Vec::new();
    let end = walk(nodes, 0, &mut visited, &mut leaves);
    assert_eq!(end, nodes.len());
    assert_eq!(visited, (0..nodes.len()).collect::<Vec<_>>());

    let mut next_slot = 0usize;
    let mut leaf_boxes = Vec::new();
    for leaf in leaves {
        let node = nodes[leaf];
        assert_eq!(node.prim_offset as usize, next_slot);
        let slots = &order[next_slot..next_slot + node.num_prim as usize];
        let boxes: Vec<BoundingBox> = slots.iter().map(|o| objects[*o].bounding_box).collect();
        assert_eq!(node.bounding_box, join(&boxes));
        leaf_boxes.push(node.bounding_box);
        next_slot += node.num_prim as usize;
    }
    assert_eq!(next_slot, objects.len());

    let all: Vec<BoundingBox> = objects.iter().map(|o| o.bounding_box).collect();
    assert_eq!(join(&leaf_boxes), join(&all));
    assert_eq!(nodes[0].bounding_box, join(&all));
}

#[test]
fn one_object_gives_one_leaf() {
    let objects = vec![object_at(5, 6, 7, 2, 12)];
    let (nodes, order) = build_bvh(&objects);
    assert_eq!(order, vec![0]);
    assert_eq!(nodes.len(), 1);
    let expected = LinearBVHNode {
        bounding_box: objects[0].bounding_box,
        prim_offset: 0,
        second_child_offset: -1,
        num_prim: 1,
        axis: -1,
    };
    assert_eq!(nodes[0], expected);
}

#[test]
fn two_objects_give_a_root_and_two_leaves() {
    let objects = vec![object_at(100, 0, 0, 1, 4), object_at(-100, 0, 0, 1, 4)];
    let (nodes, order) = build_bvh(&objects);
    assert_eq!(nodes.len(), 3);
    assert_eq!(order, vec![1, 0]);
    assert_eq!(nodes[0].num_prim, 0);
    assert_eq!(nodes[0].axis, 0);
    assert_eq!(nodes[0].second_child_offset, 2);
    assert_eq!(nodes[0].prim_offset, -1);
    assert_eq!((nodes[1].prim_offset, nodes[1].num_prim), (0, 1));
    assert_eq!((nodes[2].prim_offset, nodes[2].num_prim), (1, 1));
    assert_eq!(nodes[1].bounding_box, objects[1].bounding_box);
    assert_eq!(nodes[2].bounding_box, objects[0].bounding_box);
    check_hierarchy(&objects, &nodes, &order);
}

#[test]
fn objects_with_one_centre_stay_in_one_leaf() {
    let objects = vec![
        object_at(0, 0, 0, 1, 4),
        object_at(0, 0, 0, 5, 4),
        object_at(0, 0, 0, 3, 4),
    ];
    let (nodes, order) = build_bvh(&objects);
    assert_eq!(nodes.len(), 1);
    assert_eq!(order, vec![0, 1, 2]);
    assert_eq!((nodes[0].prim_offset, nodes[0].num_prim), (0, 3));
    assert_eq!(nodes[0].bounding_box, objects[1].bounding_box);
}

#[test]
fn up_to_four_objects_split_at_the_middle_of_the_sorted_range() {
    let objects = vec![
        object_at(0, 30, 0, 1, 1),
        object_at(0, 10, 0, 1, 1),
        object_at(0, 40, 0, 1, 1),
        object_at(0, 20, 0, 1, 1),
    ];
    let (nodes, order) = build_bvh(&objects);
    assert_eq!(order, vec![1, 3, 0, 2]);
    assert_eq!(nodes.len(), 7);
    assert_eq!(nodes[0].axis, 1);
    assert_eq!(nodes[0].second_child_offset, 4);
    check_hierarchy(&objects, &nodes, &order);
}

#[test]
fn every_object_appears_once_in_the_order() {
    for count in [1usize, 2, 3, 4, 5, 8, 13, 50, 226, 400] {
        let objects = scattered(count);
        let (nodes, order) = build_bvh(&objects);
        assert_eq!(order.len(), count);
        check_hierarchy(&objects, &nodes, &order);
    }
}

#[test]
fn layout_holds_for_a_long_row() {
    let objects = row(300, 10, 100);
    let (nodes, order) = build_bvh(&objects);
    assert!(nodes.len() <= 2 * objects.len() - 1);
    check_hierarchy(&objects, &nodes, &order);
}

#[test]
fn a_small_cheap_range_stays_one_leaf() {
    let objects = row(5, 1, 0);
    let (nodes, order) = build_bvh(&objects);
    assert_eq!(nodes.len(), 1);
    assert_eq!(order, vec![0, 1, 2, 3, 4]);
    assert_eq!(nodes[0].num_prim, 5);
}

#[test]
fn a_costly_range_is_split_by_sections() {
    let objects = row(6, 100, 1000);
    let (nodes, order) = build_bvh(&objects);
    assert!(nodes.len() > 1);
    assert_eq!(nodes[0].axis, 0);
    check_hierarchy(&objects, &nodes, &order);
}

#[test]
fn build_does_not_depend_on_anything_but_the_objects() {
    let objects = scattered(120);
    let first = build_bvh(&objects);
    let second = build_bvh(&objects);
    assert_eq!(first.0, second.0);
    assert_eq!(first.1, second.1);
}

#[test]
fn record_centre_is_the_middle_rounded_down() {
    let b = BoundingBox { lower: Vector::vec3(0, -3, 5), upper: Vector::vec3(10, 4, 5) };
    let info = BVHInfo::new(7, b);
    assert_eq!(info.primitive_number, 7);
    assert_eq!(info.bounding_box, b);
    assert_eq!(info.center, Vector::vec3(5, 0, 5));
    assert_eq!(info.section, 0);
}

fn records(objects: &[SceneObject]) -> Vec<BVHInfo> {
    objects.iter().enumerate().map(|(i, o)| BVHInfo::new(i, o.bounding_box)).collect()
}

#[test]
fn range_and_centre_bounds() {
    let objects = vec![object_at(0, 0, 0, 2, 1), object_at(10, 4, -6, 1, 1), object_at(50, 50, 50, 1, 1)];
    let infos = records(&objects);
    let b = range_bounds(&infos, 0, 2);
    assert_eq!(b.lower, Vector::vec3(-2, -2, -7));
    assert_eq!(b.upper, Vector::vec3(11, 5, 2));
    let c = center_bounds(&infos, 0, 2);
    assert_eq!(c.lower, Vector::vec3(0, 0, -6));
    assert_eq!(c.upper, Vector::vec3(10, 4, 0));
    assert_eq!(range_bounds(&infos, 1, 1), BoundingBox::new());
}

#[test]
fn sort_range_orders_only_the_range() {
    let objects = vec![
        object_at(9, 0, 0, 1, 1),
        object_at(5, 0, 0, 1, 1),
        object_at(7, 0, 0, 1, 1),
        object_at(1, 0, 0, 1, 1),
        object_at(0, 0, 0, 1, 1),
    ];
    let mut infos = records(&objects);
    sort_range(&mut infos, 0, 4, 0);
    let numbers: Vec<usize> = infos.iter().map(|i| i.primitive_number).collect();
    assert_eq!(numbers, vec![3, 1, 2, 0, 4]);
}

#[test]
fn sort_range_sorts_along_the_given_axis() {
    let objects = vec![
        object_at(0, 3, 9, 1, 1),
        object_at(1, 1, 8, 1, 1),
        object_at(2, 2, 7, 1, 1),
        object_at(3, 0, 7, 1, 1),
    ];
    let mut infos = records(&objects);
    sort_range(&mut infos, 0, 4, 1);
    let numbers: Vec<usize> = infos.iter().map(|i| i.primitive_number).collect();
    assert_eq!(numbers, vec![3, 1, 2, 0]);
    sort_range(&mut infos, 0, 4, 2);
    let heights: Vec<i64> = infos.iter().map(|i| i.center.z).collect();
    assert_eq!(heights, vec![7, 7, 8, 9]);
    sort_range(&mut infos, 1, 1, 0);
    sort_range(&mut infos, 4, 4, 0);
}

fn sections_with(counts: [u64; 12]) -> Vec<Section> {
    (0..12)
        .map(|i| Section {
            bounding_box: BoundingBox {
                lower: Vector::vec3(i as i64 * 10, 0, 0),
                upper: Vector::vec3(i as i64 * 10 + 10, 1, 1),
            },
            count: counts[i],
        })
        .collect()
}

#[test]
fn side_totals_add_counts_and_join_boxes() {
    let sections = sections_with([1, 2, 3, 4, 5, 6, 7, 8, 9, 10, 11, 12]);
    let (count, bounds) = side_totals(&sections, 2, 5);
    assert_eq!(count, 3 + 4 + 5);
    assert_eq!(bounds.lower, Vector::vec3(20, 0, 0));
    assert_eq!(bounds.upper, Vector::vec3(50, 1, 1));
    let (none, empty) = side_totals(&sections, 4, 4);
    assert_eq!(none, 0);
    assert_eq!(empty, BoundingBox::new());
}

#[test]
fn cost_of_split_is_count_times_area_on_each_side() {
    let sections = sections_with([1; 12]);
    // Left of the split after section 2: 3 triangles in a 30 x 1 x 1 box,
    // right: 9 triangles in a 90 x 1 x 1 box.
    let left_area = 2 * (30 + 30 + 1);
    let right_area = 2 * (90 + 90 + 1);
    assert_eq!(cost_of_split(&sections, 2), (3 * left_area + 9 * right_area) as i128);
    assert_eq!(cost_of_split(&sections, 2), 3624);
}

#[test]
fn cheapest_split_takes_the_first_of_the_least() {
    let even = sections_with([1; 12]);
    let (at, cost) = cheapest_split(&even);
    assert_eq!(at, 5);
    assert_eq!(cost, 2 * 6 * 2 * (60 + 60 + 1));
    let heavy_start = sections_with([100, 1, 1, 1, 1, 1, 1, 1, 1, 1, 1, 1]);
    let (at, _) = cheapest_split(&heavy_start);
    assert_eq!(at, 0);
    for i in 0..11 {
        assert!(cost_of_split(&heavy_start, at) <= cost_of_split(&heavy_start, i));
    }
}

#[test]
fn a_split_pays_when_an_eighth_plus_its_cost_is_below_the_leaf_cost() {
    // 1/8 + 30 / 10 = 3.125 < 4, but not < 3.
    assert!(pays(30, 10, 4));
    assert!(!pays(30, 10, 3));
    // 1/8 + 31 / 8 = 4 exactly: not cheaper than 4.
    assert!(!pays(31, 8, 4));
    assert!(pays(31, 8, 5));
    // A parent without area never pays.
    assert!(!pays(0, 0, 1000));
}

#[test]
fn split_by_cost_moves_the_lower_sections_to_the_front() {
    let objects = row(8, 100, 50);
    let mut infos = records(&objects);
    infos.reverse();
    let bounds = range_bounds(&infos, 0, 8);
    let centres = center_bounds(&infos, 0, 8);
    let mid = split_by_cost(&mut infos, 0, 8, centres, 0, bounds, &objects);
    let mid = mid.expect("a costly range is split");
    assert!(0 < mid && mid < 8);
    let left_max = infos[..mid].iter().map(|i| i.section).max().unwrap();
    let right_min = infos[mid..].iter().map(|i| i.section).min().unwrap();
    assert!(left_max < right_min);
    assert!(infos[..mid].iter().any(|i| i.section == 0));
    assert!(infos[mid..].iter().any(|i| i.section == 11));
    let mut numbers: Vec<usize> = infos.iter().map(|i| i.primitive_number).collect();
    numbers.sort();
    assert_eq!(numbers, vec![0, 1, 2, 3, 4, 5, 6, 7]);
    for info in &infos {
        let expected = ((info.center.x - centres.lower.x) * 12 / (centres.upper.x - centres.lower.x)).min(11);
        assert_eq!(info.section as i64, expected);
    }
}

#[test]
fn choose_split_leaves_coinciding_centres_alone() {
    let objects = vec![object_at(1, 1, 1, 1, 9), object_at(1, 1, 1, 2, 9)];
    let mut infos = records(&objects);
    let bounds = range_bounds(&infos, 0, 2);
    assert_eq!(choose_split(&mut infos, 0, 2, bounds, &objects), None);
    assert_eq!(infos[0].primitive_number, 0);
    assert_eq!(infos[1].primitive_number, 1);
}

#[test]
fn choose_split_picks_the_longest_centre_axis() {
    let objects = vec![object_at(0, 0, 0, 1, 1), object_at(1, 2, 30, 1, 1), object_at(2, 9, 10, 1, 1)];
    let mut infos = records(&objects);
    let bounds = range_bounds(&infos, 0, 3);
    assert_eq!(choose_split(&mut infos, 0, 3, bounds, &objects), Some((2, 1)));
    let numbers: Vec<usize> = infos.iter().map(|i| i.primitive_number).collect();
    assert_eq!(numbers, vec![0, 2, 1]);
}

#[test]
fn recursive_build_counts_its_nodes() {
    let objects = row(4, 10, 1);
    let mut infos = records(&objects);
    let mut total = 0usize;
    let mut order = Vec::new();
    let root = recursive_build_nodes(&mut infos, 0, 4, &mut total, &objects, &mut order);
    assert_eq!(total, 7);
    assert_eq!(order, vec![0, 1, 2, 3]);
    match root {
        BVHBuildNode::Interior { split_axis, bounding_box, .. } => {
            assert_eq!(split_axis, 0);
            assert_eq!(bounding_box.lower, Vector::vec3(-1, -1, -1));
            assert_eq!(bounding_box.upper, Vector::vec3(31, 1, 1));
        }
        BVHBuildNode::Leaf { .. } => panic!("four spread objects are split"),
    }
}

#[test]
fn flatten_writes_the_tree_depth_first() {
    let a = BoundingBox { lower: Vector::vec3(0, 0, 0), upper: Vector::vec3(1, 1, 1) };
    let b = BoundingBox { lower: Vector::vec3(5, 0, 0), upper: Vector::vec3(6, 1, 1) };
    let c = BoundingBox { lower: Vector::vec3(9, 0, 0), upper: Vector::vec3(10, 1, 1) };
    let left = BVHBuildNode::interior_node(
        1,
        BVHBuildNode::leaf_node(0, 1, a),
        BVHBuildNode::leaf_node(1, 1, b),
    );
    let root = BVHBuildNode::interior_node(0, left, BVHBuildNode::leaf_node(2, 2, c));
    assert_eq!(root.bounding_box(), a.union(b).union(c));
    let mut nodes = vec![LinearBVHNode::new(BoundingBox::new()); 5];
    let mut offset = 0usize;
    let at = flatten_bvh_tree(&root, &mut offset, &mut nodes);
    assert_eq!(at, 0);
    assert_eq!(offset, 5);
    assert_eq!((nodes[0].num_prim, nodes[0].second_child_offset, nodes[0].axis), (0, 4, 0));
    assert_eq!((nodes[1].num_prim, nodes[1].second_child_offset, nodes[1].axis), (0, 3, 1));
    assert_eq!((nodes[2].prim_offset, nodes[2].num_prim), (0, 1));
    assert_eq!((nodes[3].prim_offset, nodes[3].num_prim), (1, 1));
    assert_eq!((nodes[4].prim_offset, nodes[4].num_prim), (2, 2));
    assert_eq!(nodes[1].bounding_box, a.union(b));
    assert_eq!(nodes[4].bounding_box, c);
}

#[test]
fn new_flat_node_is_an_unset_interior_node() {
    let n = LinearBVHNode::new(BoundingBox::new());
    assert_eq!((n.prim_offset, n.second_child_offset, n.num_prim, n.axis), (-1, -1, 0, -1));
}

#[test]
fn default_section_is_empty() {
    let s = Section::default();
    assert_eq!(s.count, 0);
    assert_eq!(s.bounding_box, BoundingBox::new());
}
