use crate::bvh::join_all;
use crate::geometry::BoundingBox;
use crate::vector::Vector;
use vstd::prelude::*;

verus! {

/// The middle of a box, each coordinate rounded towards the lower corner.
pub open spec fn midpoint(b: BoundingBox) -> Vector {
    Vector {
        x: (b.lower.x + (b.upper.x - b.lower.x) / 2) as i64,
        y: (b.lower.y + (b.upper.y - b.lower.y) / 2) as i64,
        z: (b.lower.z + (b.upper.z - b.lower.z) / 2) as i64,
        w: 0,
    }
}

/// What the build keeps per object while it reorders the objects.
#[derive(Clone, Copy, Debug)]
pub struct BVHInfo {
    pub primitive_number: usize,
    pub bounding_box: BoundingBox,
    pub center: Vector,
    pub section: usize,
}

impl BVHInfo {
    pub fn new(primitive_number: usize, bounding_box: BoundingBox) -> (info: Self)
        requires
            bounding_box.in_range(),
            bounding_box.inhabited(),
        ensures
            info.primitive_number == primitive_number,
            info.bounding_box == bounding_box,
            info.center == midpoint(bounding_box),
            info.section == 0,
    {
        let center = Vector::vec3(
            bounding_box.lower.x + (bounding_box.upper.x - bounding_box.lower.x) / 2,
            bounding_box.lower.y + (bounding_box.upper.y - bounding_box.lower.y) / 2,
            bounding_box.lower.z + (bounding_box.upper.z - bounding_box.lower.z) / 2,
        );
        BVHInfo { primitive_number, bounding_box, center, section: 0 }
    }

    /// The record names an object, carries that object's box, and its
    /// centre is the middle of the box.
    pub open spec fn fits(self, boxes: Seq<BoundingBox>) -> bool {
        &&& self.primitive_number < boxes.len()
        &&& self.bounding_box == boxes[self.primitive_number as int]
        &&& self.bounding_box.in_range()
        &&& self.bounding_box.inhabited()
        &&& self.center == midpoint(self.bounding_box)
    }
}

/// Every record fits the object boxes.
pub open spec fn infos_fit(infos: Seq<BVHInfo>, boxes: Seq<BoundingBox>) -> bool {
    forall|i: int| 0 <= i < infos.len() ==> (#[trigger] infos[i]).fits(boxes)
}

/// No two records name the same object.
pub open spec fn distinct_numbers(infos: Seq<BVHInfo>) -> bool {
    forall|i: int, j: int|
        0 <= i < infos.len() && 0 <= j < infos.len() && i != j ==> (#[trigger] infos[i]).primitive_number
            != (#[trigger] infos[j]).primitive_number
}

/// The boxes of the records `first .. first + count`.
pub open spec fn info_boxes(infos: Seq<BVHInfo>, first: int, count: int) -> Seq<BoundingBox> {
    Seq::new(count as nat, |k: int| infos[first + k].bounding_box)
}

/// The centres of the records `first .. first + count`, each as a box of
/// one point.
pub open spec fn center_boxes(infos: Seq<BVHInfo>, first: int, count: int) -> Seq<BoundingBox> {
    Seq::new(count as nat, |k: int| BoundingBox::point(infos[first + k].center))
}

/// Every box of the sequence is a legal box.
pub open spec fn all_in_range(boxes: Seq<BoundingBox>) -> bool {
    forall|k: int| 0 <= k < boxes.len() ==> (#[trigger] boxes[k]).in_range()
}

/// The join of legal boxes is a legal box, and it encloses each of them.
pub proof fn lemma_join_all_encloses(boxes: Seq<BoundingBox>)
    requires
        all_in_range(boxes),
    ensures
        join_all(boxes).in_range(),
        join_all(boxes).lower.w == 0,
        join_all(boxes).upper.w == 0,
        forall|k: int| 0 <= k < boxes.len() ==> join_all(boxes).encloses(#[trigger] boxes[k]),
    decreases boxes.len(),
{
    if boxes.len() > 0 {
        let front = boxes.drop_last();
        lemma_join_all_encloses(front);
        assert forall|k: int| 0 <= k < boxes.len() implies join_all(boxes).encloses(
            #[trigger] boxes[k],
        ) by {
            if k < front.len() {
                assert(join_all(front).encloses(front[k]));
            }
        }
    }
}

/// Every face of the join of one or more legal boxes is a face of one of
/// them.
pub proof fn lemma_join_all_attained(boxes: Seq<BoundingBox>, axis: int)
    requires
        all_in_range(boxes),
        boxes.len() > 0,
        0 <= axis < 3,
    ensures
        exists|k: int|
            0 <= k < boxes.len() && join_all(boxes).lower.component(axis) == (#[trigger] boxes[k]).lower.component(
                axis,
            ),
        exists|k: int|
            0 <= k < boxes.len() && join_all(boxes).upper.component(axis) == (#[trigger] boxes[k]).upper.component(
                axis,
            ),
    decreases boxes.len(),
{
    let front = boxes.drop_last();
    let last = boxes.len() - 1;
    lemma_join_all_encloses(front);
    if front.len() == 0 {
        assert(join_all(boxes).lower.component(axis) == boxes[last].lower.component(axis));
    } else {
        lemma_join_all_attained(front, axis);
    }
}

/// The join of the boxes of the records `start .. end`.
pub fn range_bounds(infos: &Vec<BVHInfo>, start: usize, end: usize) -> (bounds: BoundingBox)
    requires
        start <= end <= infos.len(),
    ensures
        bounds == join_all(info_boxes(infos@, start as int, end - start)),
{
    let mut bounds = BoundingBox::new();
    let mut i: usize = start;
    while i < end
        invariant
            start <= i <= end <= infos.len(),
            bounds == join_all(info_boxes(infos@, start as int, i - start)),
        decreases end - i,
    {
        assert(info_boxes(infos@, start as int, i + 1 - start).drop_last() =~= info_boxes(
            infos@,
            start as int,
            i - start,
        ));
        bounds = bounds.union(infos[i].bounding_box);
        i += 1;
    }
    bounds
}

/// The smallest box around the centres of the records `start .. end`.
pub fn center_bounds(infos: &Vec<BVHInfo>, start: usize, end: usize) -> (bounds: BoundingBox)
    requires
        start <= end <= infos.len(),
    ensures
        bounds == join_all(center_boxes(infos@, start as int, end - start)),
{
    let mut bounds = BoundingBox::new();
    let mut i: usize = start;
    while i < end
        invariant
            start <= i <= end <= infos.len(),
            bounds == join_all(center_boxes(infos@, start as int, i - start)),
        decreases end - i,
    {
        assert(center_boxes(infos@, start as int, i + 1 - start).drop_last() =~= center_boxes(
            infos@,
            start as int,
            i - start,
        ));
        bounds = bounds.union_from_vector(infos[i].center);
        i += 1;
    }
    bounds
}

/// The value that records are sorted by: the centre along the axis with
/// the number `axis`.
pub open spec fn sort_key(info: BVHInfo, axis: u8) -> int {
    info.center.component(axis as int)
}

/// The records `start .. end` are in rising order of their centres along
/// the axis with the number `by`.
pub open spec fn sorted_by(infos: Seq<BVHInfo>, start: int, end: int, by: u8) -> bool {
    forall|i: int, j: int|
        start <= i <= j < end ==> sort_key(#[trigger] infos[i], by) <= sort_key(
            #[trigger] infos[j],
            by,
        )
}

/// Whether `record` is one of the records `start .. end`.
#[verifier::opaque]
pub open spec fn occurs(infos: Seq<BVHInfo>, start: int, end: int, record: BVHInfo) -> bool {
    exists|i: int| start <= i < end && 0 <= i < infos.len() && infos[i] == record
}

/// `after` holds the records of `before`, moved only inside the range
/// `start .. end`: outside the range nothing changed, and inside it every
/// record of one is a record of the other.
pub open spec fn same_records(
    before: Seq<BVHInfo>,
    after: Seq<BVHInfo>,
    start: int,
    end: int,
) -> bool {
    &&& after.len() == before.len()
    &&& forall|k: int|
        0 <= k < before.len() && !(start <= k < end) ==> #[trigger] after[k] == before[k]
    &&& forall|j: int| start <= j < end ==> occurs(before, start, end, #[trigger] after[j])
    &&& forall|i: int| start <= i < end ==> occurs(after, start, end, #[trigger] before[i])
}

/// The sequence with the records at `a` and `b` exchanged.
pub open spec fn exchanged(infos: Seq<BVHInfo>, a: int, b: int) -> Seq<BVHInfo> {
    infos.update(a, infos[b]).update(b, infos[a])
}

/// The record at a place of the range occurs in the range.
pub proof fn lemma_occurs_at(infos: Seq<BVHInfo>, start: int, end: int, at: int)
    requires
        0 <= start <= at < end <= infos.len(),
    ensures
        occurs(infos, start, end, infos[at]),
{
    reveal(occurs);
}

/// A record that occurs in a range has a place in it.
pub proof fn lemma_place_of(infos: Seq<BVHInfo>, start: int, end: int, record: BVHInfo) -> (at:
    int)
    requires
        occurs(infos, start, end, record),
    ensures
        start <= at < end,
        0 <= at < infos.len(),
        infos[at] == record,
{
    reveal(occurs);
    choose|i: int| start <= i < end && 0 <= i < infos.len() && infos[i] == record
}

/// A sequence holds its own records.
pub proof fn lemma_same_records_unmoved(infos: Seq<BVHInfo>, start: int, end: int)
    requires
        0 <= start <= end <= infos.len(),
    ensures
        same_records(infos, infos, start, end),
{
    assert forall|j: int| start <= j < end implies occurs(infos, start, end, #[trigger] infos[j]) by {
        lemma_occurs_at(infos, start, end, j);
    }
}

/// Exchanging two records of the range keeps the records of the range and
/// keeps the object numbers distinct.
pub proof fn lemma_exchange_keeps_records(
    origin: Seq<BVHInfo>,
    before: Seq<BVHInfo>,
    start: int,
    end: int,
    a: int,
    b: int,
)
    requires
        same_records(origin, before, start, end),
        0 <= start <= a < end <= before.len(),
        start <= b < end,
    ensures
        same_records(origin, exchanged(before, a, b), start, end),
        distinct_numbers(before) ==> distinct_numbers(exchanged(before, a, b)),
{
    let after = exchanged(before, a, b);
    assert forall|i: int| start <= i < end implies occurs(
        after,
        start,
        end,
        #[trigger] origin[i],
    ) by {
        let j0 = lemma_place_of(before, start, end, origin[i]);
        let j = if j0 == a { b } else if j0 == b { a } else { j0 };
        lemma_occurs_at(after, start, end, j);
    }
}

/// Moving records inside a range keeps every record fitting its object.
pub proof fn lemma_same_records_fit(
    before: Seq<BVHInfo>,
    after: Seq<BVHInfo>,
    start: int,
    end: int,
    boxes: Seq<BoundingBox>,
)
    requires
        same_records(before, after, start, end),
        0 <= start <= end <= before.len(),
        infos_fit(before, boxes),
    ensures
        infos_fit(after, boxes),
{
    assert forall|j: int| 0 <= j < after.len() implies (#[trigger] after[j]).fits(boxes) by {
        if start <= j < end {
            lemma_place_of(before, start, end, after[j]);
        }
    }
}

fn key_of(info: &BVHInfo, by: u8) -> (key: i64)
    ensures
        key == sort_key(*info, by),
{
    info.center.get(by)
}

fn exchange(infos: &mut Vec<BVHInfo>, a: usize, b: usize)
    requires
        a < old(infos).len(),
        b < old(infos).len(),
    ensures
        final(infos)@ == exchanged(old(infos)@, a as int, b as int),
{
    let first = infos[a];
    let second = infos[b];
    infos.set(a, second);
    infos.set(b, first);
}

/// Sorts the records `start .. end` by their centres along the axis with
/// the number `by`, by insertion: the build sorts ranges of up to four
/// records.
pub fn sort_range(infos: &mut Vec<BVHInfo>, start: usize, end: usize, by: u8)
    requires
        start <= end <= old(infos).len(),
    ensures
        same_records(old(infos)@, final(infos)@, start as int, end as int),
        sorted_by(final(infos)@, start as int, end as int, by),
        distinct_numbers(old(infos)@) ==> distinct_numbers(final(infos)@),
{
    let ghost origin = infos@;
    proof {
        lemma_same_records_unmoved(origin, start as int, end as int);
    }
    if end - start < 2 {
        return ;
    }
    let mut i: usize = start + 1;
    while i < end
        invariant
            start < i <= end <= infos.len(),
            same_records(origin, infos@, start as int, end as int),
            sorted_by(infos@, start as int, i as int, by),
            distinct_numbers(origin) ==> distinct_numbers(infos@),
        decreases end - i,
    {
        let mut j: usize = i;
        let mut moving: bool = key_of(&infos[j - 1], by) > key_of(&infos[j], by);
        while moving
            invariant
                start <= j <= i < end <= infos.len(),
                same_records(origin, infos@, start as int, end as int),
                distinct_numbers(origin) ==> distinct_numbers(infos@),
                sorted_by(infos@, start as int, j as int, by),
                sorted_by(infos@, j as int, i + 1, by),
                forall|a: int, b: int|
                    start <= a < j && j < b <= i ==> sort_key(#[trigger] infos@[a], by) <= sort_key(
                        #[trigger] infos@[b],
                        by,
                    ),
                moving == (j > start && sort_key(infos@[j - 1], by) > sort_key(infos@[j as int], by)),
            decreases j,
        {
            let ghost before = infos@;
            exchange(infos, j - 1, j);
            proof {
                lemma_exchange_keeps_records(
                    origin,
                    before,
                    start as int,
                    end as int,
                    j - 1,
                    j as int,
                );
            }
            j -= 1;
            moving = j > start && key_of(&infos[j - 1], by) > key_of(&infos[j], by);
        }
        i += 1;
    }
}

/// The centre of a record that fits its object lies inside the object's
/// box, so it is a legal coordinate.
pub proof fn lemma_center_in_box(info: BVHInfo, boxes: Seq<BoundingBox>)
    requires
        info.fits(boxes),
    ensures
        info.center.in_range(),
        info.bounding_box.holds(info.center),
{
}

/// Some record of the range has its centre at the lower end of the centre
/// bounds along `dim`, and some record at the upper end.
pub proof fn lemma_centres_reach_the_ends(
    infos: Seq<BVHInfo>,
    start: int,
    end: int,
    boxes: Seq<BoundingBox>,
    dim: int,
) -> (places: (int, int))
    requires
        0 <= start < end <= infos.len(),
        infos_fit(infos, boxes),
        0 <= dim < 3,
    ensures
        start <= places.0 < end,
        start <= places.1 < end,
        infos[places.0].center.component(dim) == join_all(
            center_boxes(infos, start, end - start),
        ).lower.component(dim),
        infos[places.1].center.component(dim) == join_all(
            center_boxes(infos, start, end - start),
        ).upper.component(dim),
{
    let centres = center_boxes(infos, start, end - start);
    lemma_join_all_attained(centres, dim);
    let lo = choose|k: int|
        0 <= k < centres.len() && join_all(centres).lower.component(dim) == (#[trigger] centres[k]).lower.component(
            dim,
        );
    let hi = choose|k: int|
        0 <= k < centres.len() && join_all(centres).upper.component(dim) == (#[trigger] centres[k]).upper.component(
            dim,
        );
    (start + lo, start + hi)
}

/// The records `start .. end` of `after` name the same objects at the same
/// places as those of `before`, with the same boxes and centres.
pub open spec fn unmoved(before: Seq<BVHInfo>, after: Seq<BVHInfo>, start: int, end: int) -> bool {
    forall|k: int|
        start <= k < end ==> (#[trigger] after[k]).primitive_number == before[k].primitive_number
            && after[k].bounding_box == before[k].bounding_box && after[k].center
            == before[k].center
}

/// Moves those of the records `start .. end` whose section is at most
/// `split` to the front of the range and the others behind them, and
/// returns the place where the others begin.
pub fn partition_range(infos: &mut Vec<BVHInfo>, start: usize, end: usize, split: usize) -> (mid:
    usize)
    requires
        start <= end <= old(infos).len(),
    ensures
        start <= mid <= end,
        same_records(old(infos)@, final(infos)@, start as int, end as int),
        distinct_numbers(old(infos)@) ==> distinct_numbers(final(infos)@),
        forall|k: int| start <= k < mid ==> (#[trigger] final(infos)@[k]).section <= split,
        forall|k: int| mid <= k < end ==> (#[trigger] final(infos)@[k]).section > split,
{
    let ghost origin = infos@;
    proof {
        lemma_same_records_unmoved(origin, start as int, end as int);
    }
    let mut low: usize = start;
    let mut high: usize = end;
    while low < high
        invariant
            start <= low <= high <= end <= infos.len(),
            same_records(origin, infos@, start as int, end as int),
            distinct_numbers(origin) ==> distinct_numbers(infos@),
            forall|k: int| start <= k < low ==> (#[trigger] infos@[k]).section <= split,
            forall|k: int| high <= k < end ==> (#[trigger] infos@[k]).section > split,
        decreases high - low,
    {
        if infos[low].section <= split {
            low += 1;
        } else {
            high -= 1;
            let ghost before = infos@;
            exchange(infos, low, high);
            proof {
                lemma_exchange_keeps_records(
                    origin,
                    before,
                    start as int,
                    end as int,
                    low as int,
                    high as int,
                );
                assert forall|k: int| start <= k < low implies (#[trigger] infos@[k]).section
                    <= split by {
                    assert(infos@[k] == before[k]);
                }
                assert forall|k: int| high <= k < end implies (#[trigger] infos@[k]).section
                    > split by {
                    if k > high {
                        assert(infos@[k] == before[k]);
                    }
                }
            }
        }
    }
    low
}

} // verus!
