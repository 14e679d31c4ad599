use crate::builder::{built, lemma_every_object_appears_once};
use crate::bvh::{covers, join_all, layout, slot_boxes, slot_count, LinearBVHNode};
use crate::geometry::{BoundingBox, Mesh};
use crate::hit_point::lemma_hit_point;
use crate::ray_tracer::{
    accepts, hunt, leaf_scan, mesh_scan, mesh_triangle_hit, nearer, slot_scan, visit, Distance,
    Tally, TraceResult, TriangleIntersectResult,
};
use crate::records::lemma_join_all_encloses;
use crate::scene::{mesh_within_box, meshes_within_boxes, object_boxes, objects_wf, SceneObject};
use crate::vector::Vector;
use vstd::prelude::*;

verus! {

/// Of three fractions with positive scales, `a`, `b` and `c`: when `a`
/// is not after `b` and `b` not after `c`, then `a` is not after `c`, and
/// `a` is before `c` as soon as one of the two steps is strict.
pub proof fn lemma_order_chain(
    a_t: int,
    a_scale: int,
    b_t: int,
    b_scale: int,
    c_t: int,
    c_scale: int,
)
    by (nonlinear_arith)
    requires
        a_scale > 0,
        b_scale > 0,
        c_scale > 0,
    ensures
        !nearer(b_t, b_scale, a_t, a_scale) && !nearer(c_t, c_scale, b_t, b_scale) ==> !nearer(
            c_t,
            c_scale,
            a_t,
            a_scale,
        ),
        nearer(a_t, a_scale, b_t, b_scale) && !nearer(c_t, c_scale, b_t, b_scale) ==> nearer(
            a_t,
            a_scale,
            c_t,
            c_scale,
        ),
        !nearer(b_t, b_scale, a_t, a_scale) && nearer(b_t, b_scale, c_t, c_scale) ==> nearer(
            a_t,
            a_scale,
            c_t,
            c_scale,
        ),
{
}

/// The hit stands over a positive scale.
pub open spec fn sane(best: Option<TraceResult>) -> bool {
    best matches Some(found) ==> found.scale > 0
}

/// The question whether anything lies before `t / scale` is settled:
/// either the limit of the search is not beyond it, or something was found
/// that is not farther.
pub open spec fn covered(
    best: Option<TraceResult>,
    near: Option<Distance>,
    t: int,
    scale: int,
) -> bool {
    ||| (near matches Some(limit) && !nearer(t, scale, limit.t as int, limit.scale as int))
    ||| (best matches Some(found) && !nearer(t, scale, found.t as int, found.scale as int))
}

/// What was found did not get farther: where there was a hit before there
/// is one after, and it is not farther.
pub open spec fn improves(before: Option<TraceResult>, after: Option<TraceResult>) -> bool {
    before matches Some(old) ==> (after matches Some(new) && !nearer(
        old.t as int,
        old.scale as int,
        new.t as int,
        new.scale as int,
    ))
}

/// What is found is a hit of the ray: it names an object and one of its
/// triangles, it is what the exact intersection with that triangle gives,
/// and it lies before the limit of the search.
pub open spec fn genuine(
    objects: Seq<SceneObject>,
    origin: Vector,
    direction: Vector,
    near: Option<Distance>,
    best: Option<TraceResult>,
) -> bool {
    best matches Some(found) ==> {
        &&& found.mesh_index < objects.len()
        &&& found.triangle_index % 3 == 0
        &&& found.triangle_index / 3 < objects[found.mesh_index as int].mesh.num_tris
        &&& mesh_triangle_hit(
            origin,
            direction,
            objects[found.mesh_index as int].mesh,
            found.triangle_index as int / 3,
        ) == Some(
            TriangleIntersectResult { u: found.u, v: found.v, t: found.t, scale: found.scale },
        )
        &&& near matches Some(limit) ==> nearer(
            found.t as int,
            found.scale as int,
            limit.t as int,
            limit.scale as int,
        )
    }
}

/// If the ray hits triangle `triangle` of the object in slot `slot`, the
/// question whether anything lies before that hit is settled.
pub open spec fn answers(
    objects: Seq<SceneObject>,
    indices: Seq<usize>,
    origin: Vector,
    direction: Vector,
    near: Option<Distance>,
    best: Option<TraceResult>,
    slot: int,
    triangle: int,
) -> bool {
    mesh_triangle_hit(origin, direction, objects[indices[slot] as int].mesh, triangle) matches Some(
        hit,
    ) ==> covered(best, near, hit.t as int, hit.scale as int)
}

/// A hit of a triangle of a well formed mesh stands over a positive scale.
pub proof fn lemma_mesh_hit_is_sane(origin: Vector, direction: Vector, mesh: Mesh, triangle: int)
    requires
        origin.in_range(),
        direction.in_range(),
        mesh.wf(),
        0 <= triangle < mesh.num_tris,
        mesh_triangle_hit(origin, direction, mesh, triangle) is Some,
    ensures
        mesh_triangle_hit(origin, direction, mesh, triangle)->0.scale > 0,
{
    lemma_hit_point(
        origin,
        direction,
        mesh.corner(3 * triangle, 0),
        mesh.corner(3 * triangle, 1),
        mesh.corner(3 * triangle, 2),
    );
}

/// The hit that a scan of a mesh reports is the hit of one of the scanned
/// triangles, and no scanned triangle is hit nearer.
pub proof fn lemma_mesh_scan_is_nearest(
    origin: Vector,
    direction: Vector,
    mesh: Mesh,
    count: int,
)
    requires
        origin.in_range(),
        direction.in_range(),
        mesh.wf(),
        0 <= count <= mesh.num_tris,
    ensures
        mesh_scan(origin, direction, mesh, count) matches Some(found) ==> {
            &&& found.scale > 0
            &&& found.triangle_index % 3 == 0
            &&& found.triangle_index / 3 < count
            &&& mesh_triangle_hit(origin, direction, mesh, found.triangle_index as int / 3) == Some(
                TriangleIntersectResult { u: found.u, v: found.v, t: found.t, scale: found.scale },
            )
        },
        forall|k: int|
            0 <= k < count ==> (#[trigger] mesh_triangle_hit(origin, direction, mesh, k) matches Some(
                hit,
            ) ==> (mesh_scan(origin, direction, mesh, count) matches Some(found) && !nearer(
                hit.t as int,
                hit.scale as int,
                found.t as int,
                found.scale as int,
            ))),
    decreases count,
{
    if count > 0 {
        lemma_mesh_scan_is_nearest(origin, direction, mesh, count - 1);
        let sofar = mesh_scan(origin, direction, mesh, count - 1);
        let now = mesh_scan(origin, direction, mesh, count);
        let last = mesh_triangle_hit(origin, direction, mesh, count - 1);
        if last is Some {
            lemma_mesh_hit_is_sane(origin, direction, mesh, count - 1);
        }
        assert(mesh.indices@.len() == mesh.indices.len());
        assert forall|k: int| 0 <= k < count implies (#[trigger] mesh_triangle_hit(
            origin,
            direction,
            mesh,
            k,
        ) matches Some(hit) ==> (now matches Some(found) && !nearer(
            hit.t as int,
            hit.scale as int,
            found.t as int,
            found.scale as int,
        ))) by {
            let this = mesh_triangle_hit(origin, direction, mesh, k);
            if this is Some {
                lemma_mesh_hit_is_sane(origin, direction, mesh, k);
                let hit = this->0;
                if k < count - 1 {
                    let old = sofar->0;
                    if last is Some && now != sofar {
                        // The last triangle replaced what was found: it is
                        // nearer than that, which was not farther than `hit`.
                        lemma_order_chain(
                            last->0.t as int,
                            last->0.scale as int,
                            old.t as int,
                            old.scale as int,
                            hit.t as int,
                            hit.scale as int,
                        );
                    }
                }
            }
        }
    }
}

/// An improvement of an improvement is an improvement.
pub proof fn lemma_improves_chain(
    first: Option<TraceResult>,
    second: Option<TraceResult>,
    third: Option<TraceResult>,
)
    requires
        sane(first),
        sane(second),
        sane(third),
        improves(first, second),
        improves(second, third),
    ensures
        improves(first, third),
{
    if first is Some {
        lemma_order_chain(
            third->0.t as int,
            third->0.scale as int,
            second->0.t as int,
            second->0.scale as int,
            first->0.t as int,
            first->0.scale as int,
        );
    }
}

/// What was settled stays settled when the search improves.
pub proof fn lemma_covered_stays(
    before: Option<TraceResult>,
    after: Option<TraceResult>,
    near: Option<Distance>,
    t: int,
    scale: int,
)
    requires
        sane(before),
        sane(after),
        improves(before, after),
        scale > 0,
        covered(before, near, t, scale),
    ensures
        covered(after, near, t, scale),
{
    if !(near matches Some(limit) && !nearer(t, scale, limit.t as int, limit.scale as int)) {
        lemma_order_chain(
            after->0.t as int,
            after->0.scale as int,
            before->0.t as int,
            before->0.scale as int,
            t,
            scale,
        );
    }
}

/// What one slot adds to a search: the result stays a genuine hit, it does
/// not get farther, and afterwards every hit on the object of the slot is
/// settled.
pub proof fn lemma_slot_scan(
    objects: Seq<SceneObject>,
    indices: Seq<usize>,
    origin: Vector,
    direction: Vector,
    near: Option<Distance>,
    slot: int,
    tally: Tally,
)
    requires
        origin.in_range(),
        direction.in_range(),
        objects_wf(objects),
        0 <= slot < indices.len(),
        indices[slot] < objects.len(),
        near matches Some(limit) ==> limit.scale > 0,
        sane(tally.best),
        genuine(objects, origin, direction, near, tally.best),
    ensures
        ({
            let after = slot_scan(objects, indices, origin, direction, near, slot, tally);
            &&& sane(after.best)
            &&& genuine(objects, origin, direction, near, after.best)
            &&& improves(tally.best, after.best)
            &&& forall|k: int|
                0 <= k < objects[indices[slot] as int].mesh.num_tris ==> #[trigger] answers(
                    objects,
                    indices,
                    origin,
                    direction,
                    near,
                    after.best,
                    slot,
                    k,
                )
        }),
{
    let object = indices[slot];
    let mesh = objects[object as int].mesh;
    let after = slot_scan(objects, indices, origin, direction, near, slot, tally);
    let scan = mesh_scan(origin, direction, mesh, mesh.num_tris as int);
    lemma_mesh_scan_is_nearest(origin, direction, mesh, mesh.num_tris as int);
    if scan is Some {
        let found = scan->0;
        if accepts(found.t as int, found.scale as int, tally.best, near) {
            if tally.best is Some && near is Some {
                lemma_order_chain(
                    found.t as int,
                    found.scale as int,
                    tally.best->0.t as int,
                    tally.best->0.scale as int,
                    near->0.t as int,
                    near->0.scale as int,
                );
            }
        }
    }
    assert forall|k: int| 0 <= k < mesh.num_tris implies #[trigger] answers(
        objects,
        indices,
        origin,
        direction,
        near,
        after.best,
        slot,
        k,
    ) by {
        let this = mesh_triangle_hit(origin, direction, mesh, k);
        if this is Some {
            lemma_mesh_hit_is_sane(origin, direction, mesh, k);
            let hit = this->0;
            let found = scan->0;
            if !accepts(found.t as int, found.scale as int, tally.best, near) {
                if tally.best is Some {
                    lemma_order_chain(
                        tally.best->0.t as int,
                        tally.best->0.scale as int,
                        found.t as int,
                        found.scale as int,
                        hit.t as int,
                        hit.scale as int,
                    );
                } else {
                    lemma_order_chain(
                        near->0.t as int,
                        near->0.scale as int,
                        found.t as int,
                        found.scale as int,
                        hit.t as int,
                        hit.scale as int,
                    );
                }
            }
        }
    }
}

/// What the slots of one leaf add to a search.
pub proof fn lemma_leaf_scan(
    objects: Seq<SceneObject>,
    indices: Seq<usize>,
    origin: Vector,
    direction: Vector,
    near: Option<Distance>,
    first: int,
    count: int,
    tally: Tally,
)
    requires
        origin.in_range(),
        direction.in_range(),
        objects_wf(objects),
        0 <= first,
        0 <= count,
        first + count <= indices.len(),
        forall|k: int| 0 <= k < indices.len() ==> (#[trigger] indices[k]) < objects.len(),
        near matches Some(limit) ==> limit.scale > 0,
        sane(tally.best),
        genuine(objects, origin, direction, near, tally.best),
    ensures
        ({
            let after = leaf_scan(objects, indices, origin, direction, near, first, count, tally);
            &&& sane(after.best)
            &&& genuine(objects, origin, direction, near, after.best)
            &&& improves(tally.best, after.best)
            &&& forall|slot: int, k: int|
                first <= slot < first + count && 0 <= k < objects[indices[slot] as int].mesh.num_tris
                    ==> #[trigger] answers(
                    objects,
                    indices,
                    origin,
                    direction,
                    near,
                    after.best,
                    slot,
                    k,
                )
        }),
    decreases count,
{
    if count > 0 {
        let sofar = leaf_scan(objects, indices, origin, direction, near, first, count - 1, tally);
        let after = leaf_scan(objects, indices, origin, direction, near, first, count, tally);
        lemma_leaf_scan(objects, indices, origin, direction, near, first, count - 1, tally);
        lemma_slot_scan(objects, indices, origin, direction, near, first + count - 1, sofar);
        lemma_improves_chain(tally.best, sofar.best, after.best);
        assert forall|slot: int, k: int|
            first <= slot < first + count && 0 <= k < objects[indices[slot] as int].mesh.num_tris implies #[trigger] answers(
            objects,
            indices,
            origin,
            direction,
            near,
            after.best,
            slot,
            k,
        ) by {
            if slot < first + count - 1 {
                lemma_answer_stays(
                    objects,
                    indices,
                    origin,
                    direction,
                    near,
                    sofar.best,
                    after.best,
                    slot,
                    k,
                );
            }
        }
    }
}

/// A settled hit stays settled when the search improves.
pub proof fn lemma_answer_stays(
    objects: Seq<SceneObject>,
    indices: Seq<usize>,
    origin: Vector,
    direction: Vector,
    near: Option<Distance>,
    before: Option<TraceResult>,
    after: Option<TraceResult>,
    slot: int,
    k: int,
)
    requires
        origin.in_range(),
        direction.in_range(),
        objects_wf(objects),
        0 <= slot < indices.len(),
        indices[slot] < objects.len(),
        0 <= k < objects[indices[slot] as int].mesh.num_tris,
        sane(before),
        sane(after),
        improves(before, after),
        answers(objects, indices, origin, direction, near, before, slot, k),
    ensures
        answers(objects, indices, origin, direction, near, after, slot, k),
{
    let mesh = objects[indices[slot] as int].mesh;
    let this = mesh_triangle_hit(origin, direction, mesh, k);
    if this is Some {
        lemma_mesh_hit_is_sane(origin, direction, mesh, k);
        lemma_covered_stays(before, after, near, this->0.t as int, this->0.scale as int);
    }
}

/// What the search of a subtree adds: the result stays a genuine hit and
/// does not get farther.
pub proof fn lemma_visit_is_genuine(
    objects: Seq<SceneObject>,
    nodes: Seq<LinearBVHNode>,
    indices: Seq<usize>,
    origin: Vector,
    direction: Vector,
    near: Option<Distance>,
    at: int,
    end: int,
    tally: Tally,
)
    requires
        origin.in_range(),
        direction.in_range(),
        objects_wf(objects),
        forall|k: int| 0 <= k < indices.len() ==> (#[trigger] indices[k]) < objects.len(),
        layout(nodes, at, end, indices.len() as int),
        near matches Some(limit) ==> limit.scale > 0,
        sane(tally.best),
        genuine(objects, origin, direction, near, tally.best),
    ensures
        ({
            let after = visit(objects, nodes, indices, origin, direction, near, at, end, tally);
            &&& sane(after.best)
            &&& genuine(objects, origin, direction, near, after.best)
            &&& improves(tally.best, after.best)
        }),
    decreases end - at,
{
    if !nodes[at].bounding_box.meets(origin, direction) {
        // A subtree that the ray misses is skipped.
    } else if nodes[at].num_prim > 0 {
        lemma_leaf_scan(
            objects,
            indices,
            origin,
            direction,
            near,
            nodes[at].prim_offset as int,
            nodes[at].num_prim as int,
            tally,
        );
    } else {
        let second = nodes[at].second_child_offset as int;
        if crate::ray_tracer::second_child_first(direction, nodes[at]) {
            let between = visit(
                objects,
                nodes,
                indices,
                origin,
                direction,
                near,
                second,
                end,
                tally,
            );
            lemma_visit_is_genuine(objects, nodes, indices, origin, direction, near, second, end, tally);
            lemma_visit_is_genuine(
                objects,
                nodes,
                indices,
                origin,
                direction,
                near,
                at + 1,
                second,
                between,
            );
            let after = visit(objects, nodes, indices, origin, direction, near, at, end, tally);
            lemma_improves_chain(tally.best, between.best, after.best);
        } else {
            let between = visit(
                objects,
                nodes,
                indices,
                origin,
                direction,
                near,
                at + 1,
                second,
                tally,
            );
            lemma_visit_is_genuine(
                objects,
                nodes,
                indices,
                origin,
                direction,
                near,
                at + 1,
                second,
                tally,
            );
            lemma_visit_is_genuine(
                objects,
                nodes,
                indices,
                origin,
                direction,
                near,
                second,
                end,
                between,
            );
            let after = visit(objects, nodes, indices, origin, direction, near, at, end, tally);
            lemma_improves_chain(tally.best, between.best, after.best);
        }
    }
}

/// What a search reports is a hit of the ray on a triangle of the scene,
/// before the limit of the search.
pub proof fn lemma_trace_reports_a_real_hit(
    objects: Seq<SceneObject>,
    nodes: Seq<LinearBVHNode>,
    indices: Seq<usize>,
    origin: Vector,
    direction: Vector,
    near: Option<Distance>,
)
    requires
        origin.in_range(),
        direction.in_range(),
        crate::scene::searchable(objects, nodes, indices),
        near matches Some(limit) ==> limit.scale > 0,
    ensures
        genuine(
            objects,
            origin,
            direction,
            near,
            hunt(objects, nodes, indices, origin, direction, near).best,
        ),
        sane(hunt(objects, nodes, indices, origin, direction, near).best),
{
    lemma_visit_is_genuine(
        objects,
        nodes,
        indices,
        origin,
        direction,
        near,
        0,
        nodes.len() as int,
        Tally { best: None, tests: 0, hits: 0 },
    );
}

/// A weighted sum of three numbers between two bounds lies between the
/// bounds times the sum of the weights, when no weight is negative.
pub proof fn lemma_weighted_between(
    lower: int,
    upper: int,
    c0: int,
    c1: int,
    c2: int,
    w0: int,
    w1: int,
    w2: int,
)
    by (nonlinear_arith)
    requires
        lower <= c0 <= upper,
        lower <= c1 <= upper,
        lower <= c2 <= upper,
        w0 >= 0,
        w1 >= 0,
        w2 >= 0,
    ensures
        lower * (w0 + w1 + w2) <= w0 * c0 + w1 * c1 + w2 * c2 <= upper * (w0 + w1 + w2),
{
}

/// Scaling by a positive number keeps the order.
pub proof fn lemma_scale_keeps_order(a: int, b: int, scale: int)
    by (nonlinear_arith)
    requires
        a <= b,
        scale > 0,
    ensures
        a * scale <= b * scale,
{
}

/// The point where the ray hits a triangle of an object lies in the box
/// of the object, when the mesh does.
pub proof fn lemma_hit_lies_in_box(
    object: SceneObject,
    origin: Vector,
    direction: Vector,
    triangle: int,
)
    requires
        origin.in_range(),
        direction.in_range(),
        object.wf(),
        mesh_within_box(object),
        0 <= triangle < object.mesh.num_tris,
        mesh_triangle_hit(origin, direction, object.mesh, triangle) is Some,
    ensures
        ({
            let hit = mesh_triangle_hit(origin, direction, object.mesh, triangle)->0;
            hit.scale > 0 && object.bounding_box.holds_ray_point(
                origin,
                direction,
                hit.t as int,
                hit.scale as int,
            )
        }),
{
    let mesh = object.mesh;
    let b = object.bounding_box;
    let i0 = mesh.indices@[3 * triangle] as int;
    let i1 = mesh.indices@[3 * triangle + 1] as int;
    let i2 = mesh.indices@[3 * triangle + 2] as int;
    let v_0 = mesh.vertices@[i0].pos;
    let v_1 = mesh.vertices@[i1].pos;
    let v_2 = mesh.vertices@[i2].pos;
    lemma_hit_point(origin, direction, v_0, v_1, v_2);
    let hit = mesh_triangle_hit(origin, direction, mesh, triangle)->0;
    assert forall|axis: int| 0 <= axis < 3 implies b.lower.component(axis) * hit.scale
        <= #[trigger] origin.component(axis) * hit.scale + hit.t * direction.component(axis)
        <= b.upper.component(axis) * hit.scale by {
        lemma_weighted_between(
            b.lower.component(axis),
            b.upper.component(axis),
            v_0.component(axis),
            v_1.component(axis),
            v_2.component(axis),
            hit.scale - hit.u - hit.v,
            hit.u as int,
            hit.v as int,
        );
    }
}

/// A ray point inside a box lies inside every box around that box.
pub proof fn lemma_outer_box_holds(
    outer: BoundingBox,
    inner: BoundingBox,
    origin: Vector,
    direction: Vector,
    t: int,
    scale: int,
)
    requires
        scale > 0,
        outer.encloses(inner),
        inner.holds_ray_point(origin, direction, t, scale),
    ensures
        outer.holds_ray_point(origin, direction, t, scale),
{
    assert forall|axis: int| 0 <= axis < 3 implies outer.lower.component(axis) * scale
        <= #[trigger] origin.component(axis) * scale + t * direction.component(axis)
        <= outer.upper.component(axis) * scale by {
        lemma_scale_keeps_order(outer.lower.component(axis), inner.lower.component(axis), scale);
        lemma_scale_keeps_order(inner.upper.component(axis), outer.upper.component(axis), scale);
    }
}

/// The slots of a subtree lie in the object order, and there is at least
/// one.
pub proof fn lemma_slots_of_subtree(
    nodes: Seq<LinearBVHNode>,
    at: int,
    end: int,
    start: int,
    order: Seq<usize>,
    boxes: Seq<BoundingBox>,
)
    requires
        layout(nodes, at, end, order.len() as int),
        covers(nodes, at, end, start, order, boxes),
        0 <= start,
    ensures
        1 <= slot_count(nodes, at, end),
        start + slot_count(nodes, at, end) <= order.len(),
    decreases end - at,
{
    if nodes[at].num_prim == 0 {
        let second = nodes[at].second_child_offset as int;
        lemma_slots_of_subtree(nodes, at + 1, second, start, order, boxes);
        lemma_slots_of_subtree(
            nodes,
            second,
            end,
            start + slot_count(nodes, at + 1, second),
            order,
            boxes,
        );
    }
}

/// The box at the root of a subtree encloses the box of every object
/// under it.
pub proof fn lemma_subtree_box_encloses(
    nodes: Seq<LinearBVHNode>,
    at: int,
    end: int,
    start: int,
    order: Seq<usize>,
    boxes: Seq<BoundingBox>,
    slot: int,
)
    requires
        layout(nodes, at, end, order.len() as int),
        covers(nodes, at, end, start, order, boxes),
        0 <= start <= slot < start + slot_count(nodes, at, end),
        forall|k: int| 0 <= k < order.len() ==> (#[trigger] order[k]) < boxes.len(),
        crate::records::all_in_range(boxes),
    ensures
        nodes[at].bounding_box.encloses(boxes[order[slot] as int]),
    decreases end - at,
{
    if nodes[at].num_prim > 0 {
        let members = slot_boxes(order, boxes, start, nodes[at].num_prim as int);
        lemma_join_all_encloses(members);
        assert(join_all(members).encloses(members[slot - start]));
    } else {
        let second = nodes[at].second_child_offset as int;
        let left = slot_count(nodes, at + 1, second);
        lemma_slots_of_subtree(nodes, at + 1, second, start, order, boxes);
        if slot < start + left {
            lemma_subtree_box_encloses(nodes, at + 1, second, start, order, boxes, slot);
        } else {
            lemma_subtree_box_encloses(nodes, second, end, start + left, order, boxes, slot);
        }
    }
}

/// After the search of a subtree every hit of the ray on an object under
/// the subtree is settled: the limit of the search is not beyond it, or
/// something was found that is not farther.
pub proof fn lemma_visit_settles(
    objects: Seq<SceneObject>,
    nodes: Seq<LinearBVHNode>,
    indices: Seq<usize>,
    origin: Vector,
    direction: Vector,
    near: Option<Distance>,
    at: int,
    end: int,
    start: int,
    tally: Tally,
)
    requires
        origin.in_range(),
        direction.in_range(),
        objects_wf(objects),
        meshes_within_boxes(objects),
        forall|k: int| 0 <= k < indices.len() ==> (#[trigger] indices[k]) < objects.len(),
        layout(nodes, at, end, indices.len() as int),
        covers(nodes, at, end, start, indices, object_boxes(objects)),
        0 <= start,
        near matches Some(limit) ==> limit.scale > 0,
        sane(tally.best),
        genuine(objects, origin, direction, near, tally.best),
    ensures
        ({
            let after = visit(objects, nodes, indices, origin, direction, near, at, end, tally);
            forall|slot: int, k: int|
                start <= slot < start + slot_count(nodes, at, end) && 0 <= k < objects[indices[slot] as int].mesh.num_tris
                    ==> #[trigger] answers(
                    objects,
                    indices,
                    origin,
                    direction,
                    near,
                    after.best,
                    slot,
                    k,
                )
        }),
    decreases end - at,
{
    let boxes = object_boxes(objects);
    let after = visit(objects, nodes, indices, origin, direction, near, at, end, tally);
    lemma_slots_of_subtree(nodes, at, end, start, indices, boxes);
    if !nodes[at].bounding_box.meets(origin, direction) {
        assert forall|slot: int, k: int|
            start <= slot < start + slot_count(nodes, at, end) && 0 <= k < objects[indices[slot] as int].mesh.num_tris implies #[trigger] answers(
            objects,
            indices,
            origin,
            direction,
            near,
            after.best,
            slot,
            k,
        ) by {
            let object = objects[indices[slot] as int];
            if mesh_triangle_hit(origin, direction, object.mesh, k) is Some {
                let hit = mesh_triangle_hit(origin, direction, object.mesh, k)->0;
                lemma_hit_lies_in_box(object, origin, direction, k);
                lemma_subtree_box_encloses(nodes, at, end, start, indices, boxes, slot);
                lemma_outer_box_holds(
                    nodes[at].bounding_box,
                    object.bounding_box,
                    origin,
                    direction,
                    hit.t as int,
                    hit.scale as int,
                );
                nodes[at].bounding_box.lemma_point_in_box_is_met(
                    origin,
                    direction,
                    hit.t as int,
                    hit.scale as int,
                );
            }
        }
    } else if nodes[at].num_prim > 0 {
        lemma_leaf_scan(
            objects,
            indices,
            origin,
            direction,
            near,
            nodes[at].prim_offset as int,
            nodes[at].num_prim as int,
            tally,
        );
    } else {
        let second = nodes[at].second_child_offset as int;
        let left = slot_count(nodes, at + 1, second);
        lemma_slots_of_subtree(nodes, at + 1, second, start, indices, boxes);
        let second_first = crate::ray_tracer::second_child_first(direction, nodes[at]);
        let (a_at, a_end, a_start, b_at, b_end, b_start) = if second_first {
            (second, end, start + left, at + 1, second, start)
        } else {
            (at + 1, second, start, second, end, start + left)
        };
        let between = visit(
            objects,
            nodes,
            indices,
            origin,
            direction,
            near,
            a_at,
            a_end,
            tally,
        );
        lemma_visit_is_genuine(objects, nodes, indices, origin, direction, near, a_at, a_end, tally);
        lemma_visit_settles(
            objects,
            nodes,
            indices,
            origin,
            direction,
            near,
            a_at,
            a_end,
            a_start,
            tally,
        );
        lemma_visit_is_genuine(
            objects,
            nodes,
            indices,
            origin,
            direction,
            near,
            b_at,
            b_end,
            between,
        );
        lemma_visit_settles(
            objects,
            nodes,
            indices,
            origin,
            direction,
            near,
            b_at,
            b_end,
            b_start,
            between,
        );
        assert forall|slot: int, k: int|
            start <= slot < start + slot_count(nodes, at, end) && 0 <= k < objects[indices[slot] as int].mesh.num_tris implies #[trigger] answers(
            objects,
            indices,
            origin,
            direction,
            near,
            after.best,
            slot,
            k,
        ) by {
            if a_start <= slot < a_start + slot_count(nodes, a_at, a_end) {
                lemma_answer_stays(
                    objects,
                    indices,
                    origin,
                    direction,
                    near,
                    between.best,
                    after.best,
                    slot,
                    k,
                );
            }
        }
    }
}

/// The search of a finished hierarchy finds the nearest hit: whatever
/// triangle of whatever object the ray hits, either the limit of the search
/// is not beyond that hit, or the search reports a hit that is not farther.
///
/// Boxes that overlap, and the order in which the children of a node are
/// searched, do not change this.
pub proof fn lemma_trace_finds_the_nearest_hit(
    objects: Seq<SceneObject>,
    nodes: Seq<LinearBVHNode>,
    indices: Seq<usize>,
    origin: Vector,
    direction: Vector,
    near: Option<Distance>,
    object: int,
    triangle: int,
)
    requires
        origin.in_range(),
        direction.in_range(),
        built(objects, nodes, indices),
        objects_wf(objects),
        meshes_within_boxes(objects),
        near matches Some(limit) ==> limit.scale > 0,
        0 <= object < objects.len(),
        0 <= triangle < objects[object].mesh.num_tris,
        mesh_triangle_hit(origin, direction, objects[object].mesh, triangle) is Some,
    ensures
        ({
            let hit = mesh_triangle_hit(origin, direction, objects[object].mesh, triangle)->0;
            covered(
                hunt(objects, nodes, indices, origin, direction, near).best,
                near,
                hit.t as int,
                hit.scale as int,
            )
        }),
{
    let slot = lemma_every_object_appears_once(indices, object);
    lemma_visit_settles(
        objects,
        nodes,
        indices,
        origin,
        direction,
        near,
        0,
        nodes.len() as int,
        0,
        Tally { best: None, tests: 0, hits: 0 },
    );
    let best = hunt(objects, nodes, indices, origin, direction, near).best;
    assert(answers(objects, indices, origin, direction, near, best, slot, triangle));
}

/// The distance that a search reports depends on the objects and the ray
/// alone: over whatever finished hierarchy the objects are searched, and
/// in whatever order its nodes are visited, either both searches find
/// nothing or both find a hit at the same distance.
pub proof fn lemma_nearest_distance_is_determined(
    objects: Seq<SceneObject>,
    nodes_a: Seq<LinearBVHNode>,
    indices_a: Seq<usize>,
    nodes_b: Seq<LinearBVHNode>,
    indices_b: Seq<usize>,
    origin: Vector,
    direction: Vector,
    near: Option<Distance>,
)
    requires
        origin.in_range(),
        direction.in_range(),
        objects.len() <= crate::bvh::MAX_OBJECTS,
        built(objects, nodes_a, indices_a),
        built(objects, nodes_b, indices_b),
        objects_wf(objects),
        meshes_within_boxes(objects),
        near matches Some(limit) ==> limit.scale > 0,
    ensures
        ({
            let a = hunt(objects, nodes_a, indices_a, origin, direction, near).best;
            let b = hunt(objects, nodes_b, indices_b, origin, direction, near).best;
            &&& a is Some <==> b is Some
            &&& a is Some ==> a->0.t * b->0.scale == b->0.t * a->0.scale
        }),
{
    let a = hunt(objects, nodes_a, indices_a, origin, direction, near).best;
    let b = hunt(objects, nodes_b, indices_b, origin, direction, near).best;
    lemma_trace_reports_a_real_hit(objects, nodes_a, indices_a, origin, direction, near);
    lemma_trace_reports_a_real_hit(objects, nodes_b, indices_b, origin, direction, near);
    if a is Some {
        let found = a->0;
        lemma_trace_finds_the_nearest_hit(
            objects,
            nodes_b,
            indices_b,
            origin,
            direction,
            near,
            found.mesh_index as int,
            found.triangle_index as int / 3,
        );
    }
    if b is Some {
        let found = b->0;
        lemma_trace_finds_the_nearest_hit(
            objects,
            nodes_a,
            indices_a,
            origin,
            direction,
            near,
            found.mesh_index as int,
            found.triangle_index as int / 3,
        );
    }
}

} // verus!
