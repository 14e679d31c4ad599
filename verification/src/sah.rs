use crate::bvh::{join_all, MAX_OBJECTS};
use crate::geometry::{lemma_side_product, BoundingBox};
use crate::records::{
    center_boxes, distinct_numbers, infos_fit, lemma_center_in_box, lemma_centres_reach_the_ends,
    lemma_join_all_encloses, lemma_place_of, lemma_same_records_fit, partition_range,
    same_records, unmoved, BVHInfo,
};
use crate::scene::{object_boxes, SceneObject};
use crate::vector::lemma_product_bound;
use vstd::prelude::*;

verus! {

/// The number of sections that the cost estimate sorts the centres into.
pub const NUM_SECTIONS: usize = 12;

/// Above this many objects a range is always split.
pub const LEAF_LIMIT: usize = 225;

/// What the cost estimate knows of one section: the join of the boxes of
/// its objects and the number of their triangles.
#[derive(Clone, Copy, Debug)]
pub struct Section {
    pub bounding_box: BoundingBox,
    pub count: u64,
}

impl Default for Section {
    fn default() -> (section: Section)
        ensures
            section.bounding_box == BoundingBox::empty(),
            section.count == 0,
    {
        Section { bounding_box: BoundingBox::new(), count: 0 }
    }
}

/// The section of a centre coordinate `value` between the ends `lo` and
/// `hi` of the centre bounds: twelve sections of equal width, the upper end
/// counted to the last one.
pub open spec fn section_of(value: int, lo: int, hi: int) -> int {
    let position = BoundingBox::fraction(value, lo, hi, NUM_SECTIONS as int);
    if position >= NUM_SECTIONS { NUM_SECTIONS - 1 } else { position }
}

/// The number of triangles of the object that a record names.
pub open spec fn triangles_of(info: BVHInfo, objects: Seq<SceneObject>) -> int {
    objects[info.primitive_number as int].mesh.num_tris as int
}

/// The triangles of those of the records `first .. first + count` that
/// lie in `section`.
pub open spec fn section_count(
    infos: Seq<BVHInfo>,
    objects: Seq<SceneObject>,
    first: int,
    count: int,
    section: int,
) -> int
    decreases count,
{
    if count <= 0 {
        0
    } else {
        let last = infos[first + count - 1];
        section_count(infos, objects, first, count - 1, section) + if last.section == section {
            triangles_of(last, objects)
        } else {
            0
        }
    }
}

/// The join of the boxes of those of the records `first .. first + count`
/// that lie in `section`.
pub open spec fn section_box(infos: Seq<BVHInfo>, first: int, count: int, section: int) -> BoundingBox
    decreases count,
{
    if count <= 0 {
        BoundingBox::empty()
    } else {
        let last = infos[first + count - 1];
        let rest = section_box(infos, first, count - 1, section);
        if last.section == section {
            rest.join(last.bounding_box)
        } else {
            rest
        }
    }
}

/// The triangles of all the records `first .. first + count`.
pub open spec fn triangle_total(
    infos: Seq<BVHInfo>,
    objects: Seq<SceneObject>,
    first: int,
    count: int,
) -> int
    decreases count,
{
    if count <= 0 {
        0
    } else {
        triangle_total(infos, objects, first, count - 1) + triangles_of(
            infos[first + count - 1],
            objects,
        )
    }
}

/// The triangles of the sections `lo .. hi`.
pub open spec fn side_count(sections: Seq<Section>, lo: int, hi: int) -> int
    decreases hi - lo,
{
    if hi <= lo {
        0
    } else {
        side_count(sections, lo, hi - 1) + sections[hi - 1].count
    }
}

/// The join of the boxes of the sections `lo .. hi`.
pub open spec fn side_box(sections: Seq<Section>, lo: int, hi: int) -> BoundingBox
    decreases hi - lo,
{
    if hi <= lo {
        BoundingBox::empty()
    } else {
        side_box(sections, lo, hi - 1).join(sections[hi - 1].bounding_box)
    }
}

/// The cost of splitting after section `split`, without the constant part
/// and before the division by the area of the parent: on each side the
/// number of triangles times the area of the box.
pub open spec fn split_cost(sections: Seq<Section>, split: int) -> int {
    side_count(sections, 0, split + 1) * side_box(sections, 0, split + 1).area() + side_count(
        sections,
        split + 1,
        NUM_SECTIONS as int,
    ) * side_box(sections, split + 1, NUM_SECTIONS as int).area()
}

/// Whether the split is estimated cheaper than one leaf for the range:
/// `1/8 + cost / parent_area < leaf_cost`, with the division multiplied
/// out. A parent without area never pays.
pub open spec fn split_pays(cost: int, parent_area: int, leaf_cost: int) -> bool {
    parent_area + 8 * cost < 8 * leaf_cost * parent_area
}

/// Every section has a legal box.
pub open spec fn sections_in_range(sections: Seq<Section>) -> bool {
    forall|k: int| 0 <= k < sections.len() ==> (#[trigger] sections[k]).bounding_box.in_range()
}

/// The totals of one side of a split: the triangles and the box of the
/// sections `lo .. hi`.
pub fn side_totals(sections: &Vec<Section>, lo: usize, hi: usize) -> (totals: (u128, BoundingBox))
    requires
        lo <= hi <= sections.len() <= NUM_SECTIONS,
        sections_in_range(sections@),
    ensures
        totals.0 == side_count(sections@, lo as int, hi as int),
        totals.0 <= (hi - lo) * u64::MAX,
        totals.1 == side_box(sections@, lo as int, hi as int),
        totals.1.in_range(),
{
    let mut count: u128 = 0;
    let mut bounds = BoundingBox::new();
    let mut j: usize = lo;
    while j < hi
        invariant
            lo <= j <= hi <= sections.len() <= NUM_SECTIONS,
            sections_in_range(sections@),
            count == side_count(sections@, lo as int, j as int),
            count <= (j - lo) * u64::MAX,
            bounds == side_box(sections@, lo as int, j as int),
            bounds.in_range(),
        decreases hi - j,
    {
        count = count + sections[j].count as u128;
        bounds = bounds.union(sections[j].bounding_box);
        j += 1;
    }
    (count, bounds)
}

/// The cost of splitting after section `split`.
pub fn cost_of_split(sections: &Vec<Section>, split: usize) -> (cost: i128)
    requires
        sections.len() == NUM_SECTIONS,
        split + 1 < NUM_SECTIONS,
        sections_in_range(sections@),
    ensures
        cost == split_cost(sections@, split as int),
        -0x1_0000_0000_0000_0000_0000_0000_0000 <= cost <= 0x1_0000_0000_0000_0000_0000_0000_0000,
{
    let (count0, b0) = side_totals(sections, 0, split + 1);
    let (count1, b1) = side_totals(sections, split + 1, NUM_SECTIONS);
    let area0: i64 = b0.surface_area();
    let area1: i64 = b1.surface_area();
    proof {
        lemma_area_bound(b0);
        lemma_area_bound(b1);
        lemma_product_bound(
            count0 as int,
            area0 as int,
            0x10_0000_0000_0000_0000,
            0x400_0000_0000,
        );
        lemma_product_bound(
            count1 as int,
            area1 as int,
            0x10_0000_0000_0000_0000,
            0x400_0000_0000,
        );
    }
    (count0 as i128) * (area0 as i128) + (count1 as i128) * (area1 as i128)
}

/// The area of a legal box is small.
pub proof fn lemma_area_bound(b: BoundingBox)
    requires
        b.in_range(),
    ensures
        -0x400_0000_0000 <= b.area() <= 0x400_0000_0000,
{
    lemma_side_product(b.extent(0), b.extent(1));
    lemma_side_product(b.extent(0), b.extent(2));
    lemma_side_product(b.extent(1), b.extent(2));
}

/// The split with the least cost, the first one among equals.
pub fn cheapest_split(sections: &Vec<Section>) -> (best: (usize, i128))
    requires
        sections.len() == NUM_SECTIONS,
        sections_in_range(sections@),
    ensures
        best.0 + 1 < NUM_SECTIONS,
        best.1 == split_cost(sections@, best.0 as int),
        forall|i: int| 0 <= i < NUM_SECTIONS - 1 ==> best.1 <= split_cost(sections@, i),
        forall|i: int| 0 <= i < best.0 ==> best.1 < split_cost(sections@, i),
        -0x1_0000_0000_0000_0000_0000_0000_0000 <= best.1 <= 0x1_0000_0000_0000_0000_0000_0000_0000,
{
    let mut min_cost: i128 = cost_of_split(sections, 0);
    let mut min_cost_split_at: usize = 0;
    let mut i: usize = 1;
    while i < NUM_SECTIONS - 1
        invariant
            1 <= i <= NUM_SECTIONS - 1,
            sections.len() == NUM_SECTIONS,
            sections_in_range(sections@),
            min_cost_split_at < i,
            min_cost == split_cost(sections@, min_cost_split_at as int),
            forall|k: int| 0 <= k < i ==> min_cost <= split_cost(sections@, k),
            forall|k: int| 0 <= k < min_cost_split_at ==> min_cost < split_cost(sections@, k),
            -0x1_0000_0000_0000_0000_0000_0000_0000 <= min_cost
                <= 0x1_0000_0000_0000_0000_0000_0000_0000,
        decreases NUM_SECTIONS - i,
    {
        let cost = cost_of_split(sections, i);
        if cost < min_cost {
            min_cost = cost;
            min_cost_split_at = i;
        }
        i += 1;
    }
    (min_cost_split_at, min_cost)
}

/// Whether a split of cost `cost` is estimated cheaper than one leaf.
pub fn pays(cost: i128, parent_area: i64, leaf_cost: u64) -> (p: bool)
    requires
        -0x1_0000_0000_0000_0000_0000_0000_0000 <= cost <= 0x1_0000_0000_0000_0000_0000_0000_0000,
        -0x400_0000_0000 <= parent_area <= 0x400_0000_0000,
    ensures
        p == split_pays(cost as int, parent_area as int, leaf_cost as int),
{
    proof {
        lemma_product_bound(
            leaf_cost as int,
            parent_area as int,
            0x1_0000_0000_0000_0000,
            0x400_0000_0000,
        );
        assert(8 * leaf_cost * parent_area == 8 * (leaf_cost * parent_area)) by (nonlinear_arith);
    }
    (parent_area as i128) + 8 * cost < 8 * ((leaf_cost as i128) * (parent_area as i128))
}

/// The record with its section replaced.
pub open spec fn with_section(info: BVHInfo, section: int) -> BVHInfo {
    BVHInfo { section: section as usize, ..info }
}

/// A whole width, scaled and divided by itself, gives the scale; nothing
/// of it gives zero.
pub proof fn lemma_fraction_ends(width: int, scale: int)
    by (nonlinear_arith)
    requires
        width > 0,
        scale >= 0,
    ensures
        (0 * scale) / width == 0,
        (width * scale) / width == scale,
{
}

/// Gives every record of `start .. end` the section of its centre between
/// the ends of the centre bounds along axis `dim`.
pub fn assign_sections(
    infos: &mut Vec<BVHInfo>,
    start: usize,
    end: usize,
    bounds: BoundingBox,
    dim: u8,
)
    requires
        start <= end <= old(infos).len(),
        dim < 3,
        bounds.in_range(),
        bounds.lower.component(dim as int) < bounds.upper.component(dim as int),
        forall|k: int|
            start <= k < end ==> (#[trigger] old(infos)@[k]).center.in_range() && bounds.holds(
                old(infos)@[k].center,
            ),
    ensures
        final(infos).len() == old(infos).len(),
        forall|k: int|
            0 <= k < old(infos).len() && !(start <= k < end) ==> #[trigger] final(infos)@[k]
                == old(infos)@[k],
        forall|k: int|
            start <= k < end ==> #[trigger] final(infos)@[k] == with_section(
                old(infos)@[k],
                section_of(
                    old(infos)@[k].center.component(dim as int),
                    bounds.lower.component(dim as int),
                    bounds.upper.component(dim as int),
                ),
            ) && final(infos)@[k].section < NUM_SECTIONS,
{
    let mut i: usize = start;
    while i < end
        invariant
            start <= i <= end <= infos.len(),
            infos.len() == old(infos).len(),
            dim < 3,
            bounds.in_range(),
            bounds.lower.component(dim as int) < bounds.upper.component(dim as int),
            forall|k: int|
                start <= k < end ==> (#[trigger] old(infos)@[k]).center.in_range() && bounds.holds(
                    old(infos)@[k].center,
                ),
            forall|k: int|
                0 <= k < infos.len() && !(start <= k < i) ==> #[trigger] infos@[k] == old(infos)@[k],
            forall|k: int|
                start <= k < i ==> #[trigger] infos@[k] == with_section(
                    old(infos)@[k],
                    section_of(
                        old(infos)@[k].center.component(dim as int),
                        bounds.lower.component(dim as int),
                        bounds.upper.component(dim as int),
                    ),
                ) && infos@[k].section < NUM_SECTIONS,
        decreases end - i,
    {
        let info = infos[i];
        let position = bounds.offset(info.center, NUM_SECTIONS as u32).get(dim);
        let mut b: usize = position as usize;
        if b >= NUM_SECTIONS {
            b = NUM_SECTIONS - 1;
        }
        infos.set(
            i,
            BVHInfo {
                primitive_number: info.primitive_number,
                bounding_box: info.bounding_box,
                center: info.center,
                section: b,
            },
        );
        i += 1;
    }
}

/// The totals per section over the records `start .. end`.
pub fn collect_sections(
    infos: &Vec<BVHInfo>,
    start: usize,
    end: usize,
    scene_objects: &[SceneObject],
) -> (sections: Vec<Section>)
    requires
        start <= end <= infos.len(),
        infos.len() <= MAX_OBJECTS,
        infos_fit(infos@, object_boxes(scene_objects@)),
        forall|k: int| start <= k < end ==> (#[trigger] infos@[k]).section < NUM_SECTIONS,
    ensures
        sections.len() == NUM_SECTIONS,
        sections_in_range(sections@),
        forall|b: int|
            0 <= b < NUM_SECTIONS ==> (#[trigger] sections@[b]).count == section_count(
                infos@,
                scene_objects@,
                start as int,
                end - start,
                b,
            ) && sections@[b].bounding_box == section_box(infos@, start as int, end - start, b),
{
    let mut sections: Vec<Section> = Vec::new();
    let mut b: usize = 0;
    while b < NUM_SECTIONS
        invariant
            b <= NUM_SECTIONS,
            sections.len() == b,
            forall|k: int|
                0 <= k < b ==> (#[trigger] sections@[k]).count == 0 && sections@[k].bounding_box
                    == BoundingBox::empty(),
        decreases NUM_SECTIONS - b,
    {
        sections.push(Section::default());
        b += 1;
    }
    let mut i: usize = start;
    while i < end
        invariant
            start <= i <= end <= infos.len(),
            infos.len() <= MAX_OBJECTS,
            infos_fit(infos@, object_boxes(scene_objects@)),
            forall|k: int| start <= k < end ==> (#[trigger] infos@[k]).section < NUM_SECTIONS,
            sections.len() == NUM_SECTIONS,
            sections_in_range(sections@),
            forall|b: int|
                0 <= b < NUM_SECTIONS ==> (#[trigger] sections@[b]).count == section_count(
                    infos@,
                    scene_objects@,
                    start as int,
                    i - start,
                    b,
                ) && sections@[b].bounding_box == section_box(infos@, start as int, i - start, b)
                    && sections@[b].count <= (i - start) * u32::MAX,
        decreases end - i,
    {
        let info = infos[i];
        let at: usize = info.section;
        let section = sections[at];
        let tris: u32 = scene_objects[info.primitive_number].mesh.num_tris;
        sections.set(
            at,
            Section {
                bounding_box: section.bounding_box.union(info.bounding_box),
                count: section.count + tris as u64,
            },
        );
        i += 1;
    }
    sections
}

/// The number of triangles of the objects of the records `start .. end`.
pub fn range_triangles(
    infos: &Vec<BVHInfo>,
    start: usize,
    end: usize,
    scene_objects: &[SceneObject],
) -> (total: u64)
    requires
        start <= end <= infos.len(),
        infos.len() <= MAX_OBJECTS,
        infos_fit(infos@, object_boxes(scene_objects@)),
    ensures
        total == triangle_total(infos@, scene_objects@, start as int, end - start),
{
    let mut total: u64 = 0;
    let mut i: usize = start;
    while i < end
        invariant
            start <= i <= end <= infos.len(),
            infos.len() <= MAX_OBJECTS,
            infos_fit(infos@, object_boxes(scene_objects@)),
            total == triangle_total(infos@, scene_objects@, start as int, i - start),
            total <= (i - start) * u32::MAX,
        decreases end - i,
    {
        let info = infos[i];
        total = total + scene_objects[info.primitive_number].mesh.num_tris as u64;
        i += 1;
    }
    total
}

/// The records with every record of `start .. end` given the section of
/// its centre between the ends of `bounds` along axis `dim`.
pub open spec fn marked(
    infos: Seq<BVHInfo>,
    start: int,
    end: int,
    bounds: BoundingBox,
    dim: int,
) -> Seq<BVHInfo> {
    Seq::new(
        infos.len(),
        |k: int|
            if start <= k < end {
                with_section(
                    infos[k],
                    section_of(
                        infos[k].center.component(dim),
                        bounds.lower.component(dim),
                        bounds.upper.component(dim),
                    ),
                )
            } else {
                infos[k]
            },
    )
}

/// The totals of the twelve sections over the records
/// `first .. first + count`.
pub open spec fn section_totals(
    infos: Seq<BVHInfo>,
    objects: Seq<SceneObject>,
    first: int,
    count: int,
) -> Seq<Section> {
    Seq::new(
        NUM_SECTIONS as nat,
        |b: int|
            Section {
                bounding_box: section_box(infos, first, count, b),
                count: section_count(infos, objects, first, count, b) as u64,
            },
    )
}

/// `split` is the split with the least cost, the first one among equals.
pub open spec fn is_cheapest(sections: Seq<Section>, split: int) -> bool {
    &&& 0 <= split < NUM_SECTIONS - 1
    &&& forall|i: int|
        0 <= i < NUM_SECTIONS - 1 ==> split_cost(sections, split) <= #[trigger] split_cost(
            sections,
            i,
        )
    &&& forall|i: int|
        0 <= i < split ==> split_cost(sections, split) < #[trigger] split_cost(sections, i)
}

/// What the split by estimated cost does to the records `start .. end`
/// and what it answers.
///
/// Every record of the range gets the section of its centre. With `split`
/// the cheapest split between the sections: the range stays one leaf, with
/// its records in place, when it holds no more than the leaf limit and the
/// split does not pay; otherwise the records of the sections up to the
/// split are moved to the front of the range and the answer is the place
/// of the first record after them.
pub open spec fn cost_split_outcome(
    before: Seq<BVHInfo>,
    after: Seq<BVHInfo>,
    objects: Seq<SceneObject>,
    start: int,
    end: int,
    center_bounds: BoundingBox,
    dim: int,
    bounds: BoundingBox,
    mid: Option<usize>,
) -> bool {
    let sectioned = marked(before, start, end, center_bounds, dim);
    let totals = section_totals(sectioned, objects, start, end - start);
    let leaf_cost = triangle_total(sectioned, objects, start, end - start);
    exists|split: int|
        {
            &&& #[trigger] is_cheapest(totals, split)
            &&& mid is None <==> end - start <= LEAF_LIMIT && !split_pays(
                split_cost(totals, split),
                bounds.area(),
                leaf_cost,
            )
            &&& mid is None ==> after == sectioned
            &&& mid matches Some(m) ==> {
                &&& start < m < end
                &&& same_records(sectioned, after, start, end)
                &&& forall|k: int| start <= k < m ==> (#[trigger] after[k]).section <= split
                &&& forall|k: int| m <= k < end ==> (#[trigger] after[k]).section > split
            }
        }
}

/// The split by estimated cost for a range of more than four records.
///
/// Sorts the centres into sections along `dim`, finds the cheapest split
/// between sections, and, when the range is large or the split is cheaper
/// than a leaf, moves the records of the sections up to the split to the
/// front and returns the place where the second part begins. Returns
/// `None` when the range is to stay one leaf.
pub fn split_by_cost(
    infos: &mut Vec<BVHInfo>,
    start: usize,
    end: usize,
    center_bounds: BoundingBox,
    dim: u8,
    bounds: BoundingBox,
    scene_objects: &[SceneObject],
) -> (mid: Option<usize>)
    requires
        start < end <= old(infos).len(),
        old(infos).len() == scene_objects@.len(),
        scene_objects@.len() <= MAX_OBJECTS,
        infos_fit(old(infos)@, object_boxes(scene_objects@)),
        distinct_numbers(old(infos)@),
        dim < 3,
        bounds.in_range(),
        center_bounds == join_all(center_boxes(old(infos)@, start as int, end - start)),
        center_bounds.lower.component(dim as int) < center_bounds.upper.component(dim as int),
    ensures
        final(infos).len() == old(infos).len(),
        infos_fit(final(infos)@, object_boxes(scene_objects@)),
        distinct_numbers(final(infos)@),
        forall|k: int|
            0 <= k < old(infos).len() && !(start <= k < end) ==> #[trigger] final(infos)@[k]
                == old(infos)@[k],
        mid is None ==> unmoved(old(infos)@, final(infos)@, start as int, end as int),
        mid is None ==> end - start <= LEAF_LIMIT,
        mid matches Some(m) ==> start < m < end,
        cost_split_outcome(
            old(infos)@,
            final(infos)@,
            scene_objects@,
            start as int,
            end as int,
            center_bounds,
            dim as int,
            bounds,
            mid,
        ),
{
    let ghost boxes = object_boxes(scene_objects@);
    let ghost given = infos@;
    let ghost sectioned = marked(given, start as int, end as int, center_bounds, dim as int);
    let ghost totals = section_totals(sectioned, scene_objects@, start as int, end - start);
    proof {
        let centres = center_boxes(given, start as int, end - start);
        lemma_join_all_encloses(centres);
        assert forall|k: int| start <= k < end implies (#[trigger] given[k]).center.in_range()
            && center_bounds.holds(given[k].center) by {
            lemma_center_in_box(given[k], boxes);
            assert(join_all(centres).encloses(centres[k - start]));
        }
    }
    assign_sections(infos, start, end, center_bounds, dim);
    let ghost assigned = infos@;
    assert(infos@ =~= sectioned);
    let sections = collect_sections(infos, start, end, scene_objects);
    assert(sections@ =~= totals);
    let (min_cost_split_at, min_cost) = cheapest_split(&sections);
    let leaf_cost: u64 = range_triangles(infos, start, end, scene_objects);
    proof {
        lemma_area_bound(bounds);
        assert(is_cheapest(totals, min_cost_split_at as int));
    }
    if end - start > LEAF_LIMIT || pays(min_cost, bounds.surface_area(), leaf_cost) {
        let mid = partition_range(infos, start, end, min_cost_split_at);
        proof {
            lemma_same_records_fit(assigned, infos@, start as int, end as int, boxes);
            lemma_split_is_proper(
                given,
                assigned,
                infos@,
                start as int,
                end as int,
                boxes,
                center_bounds,
                dim as int,
                min_cost_split_at as int,
                mid as int,
            );
        }
        Some(mid)
    } else {
        None
    }
}

/// After the sections are assigned and the range is parted at a split
/// between sections, both parts hold records: the record at the lower end
/// of the centre bounds lies in the first section and the record at the
/// upper end in the last one.
pub proof fn lemma_split_is_proper(
    given: Seq<BVHInfo>,
    assigned: Seq<BVHInfo>,
    parted: Seq<BVHInfo>,
    start: int,
    end: int,
    boxes: Seq<BoundingBox>,
    center_bounds: BoundingBox,
    dim: int,
    split: int,
    mid: int,
)
    requires
        0 <= start < end <= given.len(),
        given.len() == assigned.len(),
        infos_fit(given, boxes),
        0 <= dim < 3,
        center_bounds == join_all(center_boxes(given, start, end - start)),
        center_bounds.lower.component(dim) < center_bounds.upper.component(dim),
        forall|k: int|
            start <= k < end ==> #[trigger] assigned[k] == with_section(
                given[k],
                section_of(
                    given[k].center.component(dim),
                    center_bounds.lower.component(dim),
                    center_bounds.upper.component(dim),
                ),
            ),
        same_records(assigned, parted, start, end),
        0 <= split < NUM_SECTIONS - 1,
        start <= mid <= end,
        forall|k: int| start <= k < mid ==> (#[trigger] parted[k]).section <= split,
        forall|k: int| mid <= k < end ==> (#[trigger] parted[k]).section > split,
    ensures
        start < mid < end,
{
    let lo = center_bounds.lower.component(dim);
    let hi = center_bounds.upper.component(dim);
    let ends = lemma_centres_reach_the_ends(given, start, end, boxes, dim);
    lemma_fraction_ends(hi - lo, NUM_SECTIONS as int);
    let low = lemma_place_of(parted, start, end, assigned[ends.0]);
    let high = lemma_place_of(parted, start, end, assigned[ends.1]);
    assert(parted[low].section == 0);
    assert(parted[high].section == NUM_SECTIONS - 1);
}

} // verus!
