use crate::bvh::{layout, LinearBVHNode};
use crate::geometry::{sign_of, Mesh};
use crate::scene::{searchable, SceneObject};
use crate::vector::{lemma_product_bound, Vector, COORD_MAX};
use vstd::prelude::*;

verus! {

/// What a ray was sent out for.
#[derive(PartialEq, Eq, Structural, Copy, Clone, Debug)]
pub enum RayType {
    CameraRay,
    ShadowRay,
    SpecularRay,
    DiffuseRay,
}

/// The counters that one rendering thread keeps. A counter that reaches
/// the largest value stays there.
#[derive(Clone, Copy, Debug)]
pub struct Stats {
    pub num_rays_shot: u128,
    pub num_tringle_tests: u128,
    pub num_triangles_intersected: u128,
}

impl Default for Stats {
    fn default() -> (stats: Stats)
        ensures
            stats.num_rays_shot == 0,
            stats.num_tringle_tests == 0,
            stats.num_triangles_intersected == 0,
    {
        Stats { num_rays_shot: 0, num_tringle_tests: 0, num_triangles_intersected: 0 }
    }
}

/// A count that stops at the largest value of a counter.
pub open spec fn capped(count: int) -> int {
    if count > u128::MAX { u128::MAX as int } else { count }
}

impl Stats {
    /// Adds the counts of another thread to these.
    pub fn merge(&mut self, other: Stats)
        ensures
            final(self).num_rays_shot == capped(old(self).num_rays_shot + other.num_rays_shot),
            final(self).num_tringle_tests == capped(
                old(self).num_tringle_tests + other.num_tringle_tests,
            ),
            final(self).num_triangles_intersected == capped(
                old(self).num_triangles_intersected + other.num_triangles_intersected,
            ),
    {
        self.num_rays_shot = self.num_rays_shot.saturating_add(other.num_rays_shot);
        self.num_tringle_tests = self.num_tringle_tests.saturating_add(other.num_tringle_tests);
        self.num_triangles_intersected = self.num_triangles_intersected.saturating_add(
            other.num_triangles_intersected,
        );
    }
}

/// A ray parameter as an exact fraction: the point `origin + (t / scale)
/// * direction`. The scale is positive.
#[derive(Clone, Copy, Debug, PartialEq, Eq, Structural)]
pub struct Distance {
    pub t: i64,
    pub scale: i64,
}

/// Whether the fraction `t_a / scale_a` is smaller than `t_b / scale_b`,
/// for positive scales.
pub open spec fn nearer(t_a: int, scale_a: int, t_b: int, scale_b: int) -> bool {
    t_a * scale_b < t_b * scale_a
}

/// Compares two ray parameters given as fractions with positive scales.
pub fn is_nearer(t_a: i64, scale_a: i64, t_b: i64, scale_b: i64) -> (n: bool)
    ensures
        n == nearer(t_a as int, scale_a as int, t_b as int, scale_b as int),
{
    proof {
        lemma_product_bound(
            t_a as int,
            scale_b as int,
            0x8000_0000_0000_0000,
            0x8000_0000_0000_0000,
        );
        lemma_product_bound(
            t_b as int,
            scale_a as int,
            0x8000_0000_0000_0000,
            0x8000_0000_0000_0000,
        );
    }
    (t_a as i128) * (scale_b as i128) < (t_b as i128) * (scale_a as i128)
}

/// Three whole numbers: a vector of differences or products that may lie
/// outside the range of scene coordinates.
pub struct Triple {
    pub x: int,
    pub y: int,
    pub z: int,
}

/// The spatial part of a vector.
pub open spec fn spatial(v: Vector) -> Triple {
    Triple { x: v.x as int, y: v.y as int, z: v.z as int }
}

/// The difference `a - b` of the spatial parts.
pub open spec fn difference(a: Vector, b: Vector) -> Triple {
    Triple { x: a.x - b.x, y: a.y - b.y, z: a.z - b.z }
}

/// The vector product.
pub open spec fn cross(a: Triple, b: Triple) -> Triple {
    Triple { x: a.y * b.z - a.z * b.y, y: a.z * b.x - a.x * b.z, z: a.x * b.y - a.y * b.x }
}

/// The scalar product.
pub open spec fn dot(a: Triple, b: Triple) -> int {
    a.x * b.x + a.y * b.y + a.z * b.z
}

/// Where a ray meets a triangle: the barycentric weights `u / scale` and
/// `v / scale` of the second and third corner and the ray parameter
/// `t / scale`, all over one positive scale.
#[derive(Clone, Copy, Debug, PartialEq, Eq, Structural)]
pub struct TriangleIntersectResult {
    pub u: i64,
    pub v: i64,
    pub t: i64,
    pub scale: i64,
}

/// `value` with the sign turned when the determinant is negative, so that
/// all parts of an intersection stand over a positive scale.
pub open spec fn facing(det: int, value: int) -> int {
    if det < 0 { -value } else { value }
}

/// The determinant of the system that the intersection solves: zero when
/// the ray runs parallel to the plane of the triangle.
pub open spec fn determinant(direction: Vector, v_0: Vector, v_1: Vector, v_2: Vector) -> int {
    dot(difference(v_1, v_0), cross(spatial(direction), difference(v_2, v_0)))
}

/// The exact intersection of a ray with a triangle, seen from either side.
///
/// There is none when the ray is parallel to the triangle's plane, when
/// the point where it meets the plane lies outside the triangle, or when
/// that point lies behind the origin.
pub open spec fn triangle_hit(
    origin: Vector,
    direction: Vector,
    v_0: Vector,
    v_1: Vector,
    v_2: Vector,
) -> Option<TriangleIntersectResult> {
    let e1 = difference(v_1, v_0);
    let e2 = difference(v_2, v_0);
    let p = cross(spatial(direction), e2);
    let det = dot(e1, p);
    let from_corner = difference(origin, v_0);
    let q = cross(from_corner, e1);
    let u = facing(det, dot(from_corner, p));
    let v = facing(det, dot(spatial(direction), q));
    let t = facing(det, dot(e2, q));
    let scale = facing(det, det);
    if det == 0 || u < 0 || u > scale || v < 0 || u + v > scale || t < 0 {
        None
    } else {
        Some(TriangleIntersectResult { u: u as i64, v: v as i64, t: t as i64, scale: scale as i64 })
    }
}

/// Three machine numbers each at most `bound` in magnitude.
pub open spec fn within(a: (i64, i64, i64), bound: int) -> bool {
    -bound <= a.0 <= bound && -bound <= a.1 <= bound && -bound <= a.2 <= bound
}

/// The three machine numbers as whole numbers.
pub open spec fn widen(a: (i64, i64, i64)) -> Triple {
    Triple { x: a.0 as int, y: a.1 as int, z: a.2 as int }
}

fn difference_of(a: Vector, b: Vector) -> (d: (i64, i64, i64))
    requires
        a.in_range(),
        b.in_range(),
    ensures
        widen(d) == difference(a, b),
        within(d, 2 * COORD_MAX),
{
    (a.x - b.x, a.y - b.y, a.z - b.z)
}

fn cross_of(
    a: (i64, i64, i64),
    b: (i64, i64, i64),
    Ghost(bound_a): Ghost<int>,
    Ghost(bound_b): Ghost<int>,
) -> (c: (i64, i64, i64))
    requires
        within(a, bound_a),
        within(b, bound_b),
        0 <= bound_a,
        0 <= bound_b,
        2 * (bound_a * bound_b) <= i64::MAX,
    ensures
        widen(c) == cross(widen(a), widen(b)),
        within(c, 2 * (bound_a * bound_b)),
{
    proof {
        lemma_product_bound(a.1 as int, b.2 as int, bound_a, bound_b);
        lemma_product_bound(a.2 as int, b.1 as int, bound_a, bound_b);
        lemma_product_bound(a.2 as int, b.0 as int, bound_a, bound_b);
        lemma_product_bound(a.0 as int, b.2 as int, bound_a, bound_b);
        lemma_product_bound(a.0 as int, b.1 as int, bound_a, bound_b);
        lemma_product_bound(a.1 as int, b.0 as int, bound_a, bound_b);
    }
    (a.1 * b.2 - a.2 * b.1, a.2 * b.0 - a.0 * b.2, a.0 * b.1 - a.1 * b.0)
}

fn dot_of(
    a: (i64, i64, i64),
    b: (i64, i64, i64),
    Ghost(bound_a): Ghost<int>,
    Ghost(bound_b): Ghost<int>,
) -> (d: i64)
    requires
        within(a, bound_a),
        within(b, bound_b),
        0 <= bound_a,
        0 <= bound_b,
        3 * (bound_a * bound_b) <= i64::MAX,
    ensures
        d == dot(widen(a), widen(b)),
        -(3 * (bound_a * bound_b)) <= d <= 3 * (bound_a * bound_b),
{
    proof {
        lemma_product_bound(a.0 as int, b.0 as int, bound_a, bound_b);
        lemma_product_bound(a.1 as int, b.1 as int, bound_a, bound_b);
        lemma_product_bound(a.2 as int, b.2 as int, bound_a, bound_b);
    }
    a.0 * b.0 + a.1 * b.1 + a.2 * b.2
}

/// Intersects a ray with the triangle `v_0 v_1 v_2` and counts the test,
/// and the hit if there is one.
pub fn intersect_triangle(
    ray_origin: Vector,
    ray_dir: Vector,
    v_0: Vector,
    v_1: Vector,
    v_2: Vector,
    stats: &mut Stats,
) -> (hit: Option<TriangleIntersectResult>)
    requires
        ray_origin.in_range(),
        ray_dir.in_range(),
        v_0.in_range(),
        v_1.in_range(),
        v_2.in_range(),
    ensures
        hit == triangle_hit(ray_origin, ray_dir, v_0, v_1, v_2),
        final(stats).num_rays_shot == old(stats).num_rays_shot,
        final(stats).num_tringle_tests == capped(old(stats).num_tringle_tests + 1),
        final(stats).num_triangles_intersected == capped(
            old(stats).num_triangles_intersected + if hit is Some { 1int } else { 0int },
        ),
{
    stats.num_tringle_tests = stats.num_tringle_tests.saturating_add(1);

    let ghost c = COORD_MAX as int;
    let dir = (ray_dir.x, ray_dir.y, ray_dir.z);
    let v0v1 = difference_of(v_1, v_0);
    let v0v2 = difference_of(v_2, v_0);
    let p = cross_of(dir, v0v2, Ghost(c), Ghost(2 * c));
    let det = dot_of(v0v1, p, Ghost(2 * c), Ghost(2 * (c * (2 * c))));
    if det == 0 {
        return None;
    }
    let t_vec = difference_of(ray_origin, v_0);
    let q_vec = cross_of(t_vec, v0v1, Ghost(2 * c), Ghost(2 * c));
    let u_side = dot_of(t_vec, p, Ghost(2 * c), Ghost(2 * (c * (2 * c))));
    let v_side = dot_of(dir, q_vec, Ghost(c), Ghost(2 * ((2 * c) * (2 * c))));
    let t_side = dot_of(v0v2, q_vec, Ghost(2 * c), Ghost(2 * ((2 * c) * (2 * c))));
    let (u, v, t, scale) = if det < 0 {
        (-u_side, -v_side, -t_side, -det)
    } else {
        (u_side, v_side, t_side, det)
    };
    if u < 0 || u > scale {
        return None;
    }
    if v < 0 || v + u > scale {
        return None;
    }
    if t < 0 {
        return None;
    }
    stats.num_triangles_intersected = stats.num_triangles_intersected.saturating_add(1);
    Some(TriangleIntersectResult { u, v, t, scale })
}

/// The values that steer a rendering.
#[derive(Clone, Copy, Debug)]
pub struct RenderSettings {
    pub width: u32,
    pub height: u32,
    pub max_ray_depth: u32,
    pub diffuse_samples: u32,
    pub specular_samples: u32,
    pub aa_samples: u32,
    pub background_color: Vector,
}

impl RenderSettings {
    pub fn new(
        width: u32,
        height: u32,
        ray_depth: u32,
        diffuse_samples: u32,
        specular_samples: u32,
        aa_samples: u32,
        background_color: Vector,
    ) -> (settings: Self)
        ensures
            settings == (RenderSettings {
                width,
                height,
                max_ray_depth: ray_depth,
                diffuse_samples,
                specular_samples,
                aa_samples,
                background_color,
            }),
    {
        RenderSettings {
            width,
            height,
            max_ray_depth: ray_depth,
            diffuse_samples,
            specular_samples,
            aa_samples,
            background_color,
        }
    }
}

/// The pixel that render job number `job` of an image works on: jobs go
/// through the image row by row. There are as many jobs as pixels.
pub fn pixel_of_job(job: usize, width: u32, height: u32) -> (pixel: Option<(u32, u32)>)
    ensures
        pixel is Some <==> job < width * height,
        pixel matches Some(p) ==> p.0 < width && p.1 < height && p.1 * width + p.0 == job,
{
    proof {
        lemma_product_bound(width as int, height as int, 0xffff_ffff, 0xffff_ffff);
    }
    if width == 0 || (job as u64) >= (width as u64) * (height as u64) {
        return None;
    }
    let x: u32 = ((job as u64) % (width as u64)) as u32;
    let y: u32 = ((job as u64) / (width as u64)) as u32;
    proof {
        lemma_row_of_job(job as int, width as int, height as int);
    }
    Some((x, y))
}

/// A job of an image lies in one of its rows.
pub proof fn lemma_row_of_job(job: int, width: int, height: int)
    by (nonlinear_arith)
    requires
        0 <= job < width * height,
        0 < width,
    ensures
        0 <= job / width < height,
        0 <= job % width < width,
        (job / width) * width + job % width == job,
{
}

/// The nearest hit of a ray on one mesh: the intersection, and the place
/// of the triangle's first index in the index list.
#[derive(Clone, Copy, Debug, PartialEq, Eq, Structural)]
pub struct MeshIntersectResult {
    pub u: i64,
    pub v: i64,
    pub triangle_index: usize,
    pub t: i64,
    pub scale: i64,
}

/// The hit of a ray on triangle number `triangle` of the mesh.
pub open spec fn mesh_triangle_hit(
    origin: Vector,
    direction: Vector,
    mesh: Mesh,
    triangle: int,
) -> Option<TriangleIntersectResult> {
    triangle_hit(
        origin,
        direction,
        mesh.corner(3 * triangle, 0),
        mesh.corner(3 * triangle, 1),
        mesh.corner(3 * triangle, 2),
    )
}

/// The nearest hit among the first `count` triangles of the mesh; of
/// equally near ones the first.
pub open spec fn mesh_scan(origin: Vector, direction: Vector, mesh: Mesh, count: int) -> Option<
    MeshIntersectResult,
>
    decreases count,
{
    if count <= 0 {
        None
    } else {
        let sofar = mesh_scan(origin, direction, mesh, count - 1);
        match mesh_triangle_hit(origin, direction, mesh, count - 1) {
            None => sofar,
            Some(hit) => {
                if sofar matches Some(best) && !nearer(
                    hit.t as int,
                    hit.scale as int,
                    best.t as int,
                    best.scale as int,
                ) {
                    sofar
                } else {
                    Some(
                        MeshIntersectResult {
                            u: hit.u,
                            v: hit.v,
                            triangle_index: (3 * (count - 1)) as usize,
                            t: hit.t,
                            scale: hit.scale,
                        },
                    )
                }
            },
        }
    }
}

/// The number of triangles hit among the first `count` of the mesh.
pub open spec fn mesh_hits(origin: Vector, direction: Vector, mesh: Mesh, count: int) -> int
    decreases count,
{
    if count <= 0 {
        0
    } else {
        mesh_hits(origin, direction, mesh, count - 1) + if mesh_triangle_hit(
            origin,
            direction,
            mesh,
            count - 1,
        ) is Some {
            1int
        } else {
            0int
        }
    }
}

/// The number of hits is not negative and at most the number of triangles.
pub proof fn lemma_mesh_hits_bounds(origin: Vector, direction: Vector, mesh: Mesh, count: int)
    requires
        0 <= count,
    ensures
        0 <= mesh_hits(origin, direction, mesh, count) <= count,
    decreases count,
{
    if count > 0 {
        lemma_mesh_hits_bounds(origin, direction, mesh, count - 1);
    }
}

/// Finds the nearest hit of a ray on a mesh and counts the triangle tests
/// and hits.
pub fn intersect_mesh(
    origin: Vector,
    direction: Vector,
    scene_object: &Mesh,
    stats: &mut Stats,
) -> (found: Option<MeshIntersectResult>)
    requires
        origin.in_range(),
        direction.in_range(),
        scene_object.wf(),
    ensures
        found == mesh_scan(origin, direction, *scene_object, scene_object.num_tris as int),
        final(stats).num_rays_shot == old(stats).num_rays_shot,
        final(stats).num_tringle_tests == capped(
            old(stats).num_tringle_tests + scene_object.num_tris,
        ),
        final(stats).num_triangles_intersected == capped(
            old(stats).num_triangles_intersected + mesh_hits(
                origin,
                direction,
                *scene_object,
                scene_object.num_tris as int,
            ),
        ),
{
    let mut found: Option<MeshIntersectResult> = None;
    let mut index: usize = 0;
    let mut done: u32 = 0;
    while done < scene_object.num_tris
        invariant
            done <= scene_object.num_tris,
            index == 3 * done,
            origin.in_range(),
            direction.in_range(),
            scene_object.wf(),
            found == mesh_scan(origin, direction, *scene_object, done as int),
            stats.num_rays_shot == old(stats).num_rays_shot,
            stats.num_tringle_tests == capped(old(stats).num_tringle_tests + done),
            stats.num_triangles_intersected == capped(
                old(stats).num_triangles_intersected + mesh_hits(
                    origin,
                    direction,
                    *scene_object,
                    done as int,
                ),
            ),
        decreases scene_object.num_tris - done,
    {
        proof {
            assert(scene_object.indices@.len() == scene_object.indices.len());
        }
        let v_0 = scene_object.indices[index] as usize;
        let v_1 = scene_object.indices[index + 1] as usize;
        let v_2 = scene_object.indices[index + 2] as usize;
        match intersect_triangle(
            origin,
            direction,
            scene_object.vertices[v_0].pos,
            scene_object.vertices[v_1].pos,
            scene_object.vertices[v_2].pos,
            stats,
        ) {
            Some(tri_result) => {
                let closer = match found {
                    Some(best) => is_nearer(tri_result.t, tri_result.scale, best.t, best.scale),
                    None => true,
                };
                if closer {
                    found =
                    Some(
                        MeshIntersectResult {
                            u: tri_result.u,
                            v: tri_result.v,
                            triangle_index: index,
                            t: tri_result.t,
                            scale: tri_result.scale,
                        },
                    );
                }
            },
            None => (),
        }
        index += 3;
        done += 1;
    }
    found
}

/// The nearest hit of a ray in the scene: the intersection, the place of
/// the triangle's first index in the index list of its mesh, and the
/// number of the object.
#[derive(Clone, Copy, Debug, PartialEq, Eq, Structural)]
pub struct TraceResult {
    pub u: i64,
    pub v: i64,
    pub triangle_index: usize,
    pub mesh_index: usize,
    pub t: i64,
    pub scale: i64,
}

/// What a search has found and counted so far.
pub struct Tally {
    pub best: Option<TraceResult>,
    pub tests: int,
    pub hits: int,
}

/// Whether a hit at `t / scale` replaces what was found before: it must be
/// strictly nearer than the best hit so far, or, before the first hit,
/// strictly nearer than the limit `near` if there is one.
pub open spec fn accepts(t: int, scale: int, best: Option<TraceResult>, near: Option<Distance>) -> bool {
    match best {
        Some(b) => nearer(t, scale, b.t as int, b.scale as int),
        None => match near {
            Some(limit) => nearer(t, scale, limit.t as int, limit.scale as int),
            None => true,
        },
    }
}

/// The tally after the object in slot `slot` of the object order was
/// searched.
pub open spec fn slot_scan(
    objects: Seq<SceneObject>,
    indices: Seq<usize>,
    origin: Vector,
    direction: Vector,
    near: Option<Distance>,
    slot: int,
    tally: Tally,
) -> Tally {
    let object = indices[slot];
    let mesh = objects[object as int].mesh;
    let tests = tally.tests + mesh.num_tris;
    let hits = tally.hits + mesh_hits(origin, direction, mesh, mesh.num_tris as int);
    match mesh_scan(origin, direction, mesh, mesh.num_tris as int) {
        None => Tally { best: tally.best, tests, hits },
        Some(hit) => {
            if accepts(hit.t as int, hit.scale as int, tally.best, near) {
                Tally {
                    best: Some(
                        TraceResult {
                            u: hit.u,
                            v: hit.v,
                            triangle_index: hit.triangle_index,
                            mesh_index: object,
                            t: hit.t,
                            scale: hit.scale,
                        },
                    ),
                    tests,
                    hits,
                }
            } else {
                Tally { best: tally.best, tests, hits }
            }
        },
    }
}

/// The tally after the slots `first .. first + count` were searched, one
/// after the other.
pub open spec fn leaf_scan(
    objects: Seq<SceneObject>,
    indices: Seq<usize>,
    origin: Vector,
    direction: Vector,
    near: Option<Distance>,
    first: int,
    count: int,
    tally: Tally,
) -> Tally
    decreases count,
{
    if count <= 0 {
        tally
    } else {
        slot_scan(
            objects,
            indices,
            origin,
            direction,
            near,
            first + count - 1,
            leaf_scan(objects, indices, origin, direction, near, first, count - 1, tally),
        )
    }
}

/// Whether the ray moves backwards along the split axis of `node`, so that
/// the second child is the nearer one.
pub open spec fn second_child_first(direction: Vector, node: LinearBVHNode) -> bool {
    direction.component(node.axis as int) < 0
}

/// The tally after the subtree at `at .. end` was searched.
///
/// A subtree whose box the ray misses is skipped. A leaf has its slots
/// searched in order. Of the two children of an interior node the one that
/// the ray reaches first along the split axis is searched first.
pub open spec fn visit(
    objects: Seq<SceneObject>,
    nodes: Seq<LinearBVHNode>,
    indices: Seq<usize>,
    origin: Vector,
    direction: Vector,
    near: Option<Distance>,
    at: int,
    end: int,
    tally: Tally,
) -> Tally
    decreases end - at,
{
    if !(0 <= at < end <= nodes.len()) {
        tally
    } else if !nodes[at].bounding_box.meets(origin, direction) {
        tally
    } else if nodes[at].num_prim > 0 {
        leaf_scan(
            objects,
            indices,
            origin,
            direction,
            near,
            nodes[at].prim_offset as int,
            nodes[at].num_prim as int,
            tally,
        )
    } else {
        let second = nodes[at].second_child_offset as int;
        if !(at + 1 < second < end) {
            tally
        } else if second_child_first(direction, nodes[at]) {
            visit(
                objects,
                nodes,
                indices,
                origin,
                direction,
                near,
                at + 1,
                second,
                visit(objects, nodes, indices, origin, direction, near, second, end, tally),
            )
        } else {
            visit(
                objects,
                nodes,
                indices,
                origin,
                direction,
                near,
                second,
                end,
                visit(objects, nodes, indices, origin, direction, near, at + 1, second, tally),
            )
        }
    }
}

/// The tally after the subtrees of `pending` were searched, the last one
/// first.
pub open spec fn drain(
    objects: Seq<SceneObject>,
    nodes: Seq<LinearBVHNode>,
    indices: Seq<usize>,
    origin: Vector,
    direction: Vector,
    near: Option<Distance>,
    pending: Seq<(int, int)>,
    tally: Tally,
) -> Tally
    decreases pending.len(),
{
    if pending.len() == 0 {
        tally
    } else {
        drain(
            objects,
            nodes,
            indices,
            origin,
            direction,
            near,
            pending.drop_last(),
            visit(
                objects,
                nodes,
                indices,
                origin,
                direction,
                near,
                pending.last().0,
                pending.last().1,
                tally,
            ),
        )
    }
}

/// The number of nodes in the subtrees of `pending`.
pub open spec fn load(pending: Seq<(int, int)>) -> int
    decreases pending.len(),
{
    if pending.len() == 0 {
        0
    } else {
        load(pending.drop_last()) + pending.last().1 - pending.last().0
    }
}

/// Subtrees that each hold a node hold no negative number of nodes.
pub proof fn lemma_load_is_not_negative(pending: Seq<(int, int)>)
    requires
        forall|k: int| 0 <= k < pending.len() ==> (#[trigger] pending[k]).0 < pending[k].1,
    ensures
        0 <= load(pending),
    decreases pending.len(),
{
    if pending.len() > 0 {
        lemma_load_is_not_negative(pending.drop_last());
    }
}

/// The tally of a search of the whole hierarchy.
pub open spec fn hunt(
    objects: Seq<SceneObject>,
    nodes: Seq<LinearBVHNode>,
    indices: Seq<usize>,
    origin: Vector,
    direction: Vector,
    near: Option<Distance>,
) -> Tally {
    visit(
        objects,
        nodes,
        indices,
        origin,
        direction,
        near,
        0,
        nodes.len() as int,
        Tally { best: None, tests: 0, hits: 0 },
    )
}

/// Searches the slots of one leaf.
fn search_leaf(
    origin: Vector,
    direction: Vector,
    scene_objects: &[SceneObject],
    indices: &[usize],
    near: Option<Distance>,
    node: &LinearBVHNode,
    found: &mut Option<TraceResult>,
    stats: &mut Stats,
    Ghost(before): Ghost<Tally>,
    Ghost(rays): Ghost<int>,
    Ghost(tests): Ghost<int>,
    Ghost(hits): Ghost<int>,
) -> (after: Ghost<Tally>)
    requires
        origin.in_range(),
        direction.in_range(),
        crate::scene::objects_wf(scene_objects@),
        forall|k: int| 0 <= k < indices@.len() ==> (#[trigger] indices@[k]) < scene_objects@.len(),
        node.num_prim > 0,
        0 <= node.prim_offset,
        node.prim_offset + node.num_prim <= indices@.len(),
        *old(found) == before.best,
        0 <= before.tests,
        0 <= before.hits,
        0 <= tests,
        0 <= hits,
        old(stats).num_rays_shot == rays,
        old(stats).num_tringle_tests == capped(tests + before.tests),
        old(stats).num_triangles_intersected == capped(hits + before.hits),
    ensures
        after@ == leaf_scan(
            scene_objects@,
            indices@,
            origin,
            direction,
            near,
            node.prim_offset as int,
            node.num_prim as int,
            before,
        ),
        *final(found) == after@.best,
        0 <= after@.tests,
        0 <= after@.hits,
        final(stats).num_rays_shot == rays,
        final(stats).num_tringle_tests == capped(tests + after@.tests),
        final(stats).num_triangles_intersected == capped(hits + after@.hits),
{
    let ghost mut tally = before;
    let mut i: u32 = 0;
    while i < node.num_prim
        invariant
            i <= node.num_prim,
            origin.in_range(),
            direction.in_range(),
            crate::scene::objects_wf(scene_objects@),
            forall|k: int|
                0 <= k < indices@.len() ==> (#[trigger] indices@[k]) < scene_objects@.len(),
            0 <= node.prim_offset,
            node.prim_offset + node.num_prim <= indices@.len(),
            tally == leaf_scan(
                scene_objects@,
                indices@,
                origin,
                direction,
                near,
                node.prim_offset as int,
                i as int,
                before,
            ),
            *found == tally.best,
            0 <= tally.tests,
            0 <= tally.hits,
            0 <= tests,
            0 <= hits,
            stats.num_rays_shot == rays,
            stats.num_tringle_tests == capped(tests + tally.tests),
            stats.num_triangles_intersected == capped(hits + tally.hits),
        decreases node.num_prim - i,
    {
        assert(indices@.len() == indices.len());
        let index: usize = node.prim_offset as usize + i as usize;
        let mesh_index: usize = indices[index];
        proof {
            lemma_mesh_hits_bounds(
                origin,
                direction,
                scene_objects@[mesh_index as int].mesh,
                scene_objects@[mesh_index as int].mesh.num_tris as int,
            );
        }
        match intersect_mesh(origin, direction, &scene_objects[mesh_index].mesh, stats) {
            Some(mesh_result) => {
                let closer = match *found {
                    Some(best) => is_nearer(mesh_result.t, mesh_result.scale, best.t, best.scale),
                    None => match near {
                        Some(limit) => is_nearer(
                            mesh_result.t,
                            mesh_result.scale,
                            limit.t,
                            limit.scale,
                        ),
                        None => true,
                    },
                };
                if closer {
                    *found =
                    Some(
                        TraceResult {
                            u: mesh_result.u,
                            v: mesh_result.v,
                            triangle_index: mesh_result.triangle_index,
                            mesh_index,
                            t: mesh_result.t,
                            scale: mesh_result.scale,
                        },
                    );
                }
            },
            None => (),
        }
        proof {
            tally =
            slot_scan(
                scene_objects@,
                indices@,
                origin,
                direction,
                near,
                node.prim_offset + i,
                tally,
            );
        }
        i += 1;
    }
    Ghost(tally)
}

/// Finds the nearest hit of a ray in the scene that lies before `near`.
///
/// A ray deeper than the settings allow finds nothing and is not counted.
/// Every other ray is counted once, walks the hierarchy from the root, and
/// counts the triangle tests and hits of every mesh it searches.
pub fn trace(
    origin: Vector,
    direction: Vector,
    scene_objects: &[SceneObject],
    nodes: &[LinearBVHNode],
    indices: &[usize],
    near: Option<Distance>,
    current_ray_depth: u32,
    settings: RenderSettings,
    ray_type: RayType,
    stats: &mut Stats,
) -> (found: Option<TraceResult>)
    requires
        origin.in_range(),
        direction.in_range(),
        searchable(scene_objects@, nodes@, indices@),
    ensures
        current_ray_depth > settings.max_ray_depth ==> found is None && *final(stats) == *old(
            stats,
        ),
        current_ray_depth <= settings.max_ray_depth ==> ({
            let tally = hunt(scene_objects@, nodes@, indices@, origin, direction, near);
            &&& found == tally.best
            &&& final(stats).num_rays_shot == capped(old(stats).num_rays_shot + 1)
            &&& final(stats).num_tringle_tests == capped(
                old(stats).num_tringle_tests + tally.tests,
            )
            &&& final(stats).num_triangles_intersected == capped(
                old(stats).num_triangles_intersected + tally.hits,
            )
        }),
{
    let mut found: Option<TraceResult> = None;
    if current_ray_depth > settings.max_ray_depth {
        return found;
    }
    stats.num_rays_shot = stats.num_rays_shot.saturating_add(1);

    let sign_x: i8 = if direction.x < 0 { 1 } else { 0 };
    let sign_y: i8 = if direction.y < 0 { 1 } else { 0 };
    let sign_z: i8 = if direction.z < 0 { 1 } else { 0 };
    let sign: [i8; 3] = [sign_x, sign_y, sign_z];

    let mut current_node_index: usize = 0;
    let mut nodes_to_visit: Vec<usize> = Vec::new();
    let ghost mut current_end: int = nodes@.len() as int;
    let ghost mut pending: Seq<(int, int)> = Seq::empty();
    let ghost mut tally = Tally { best: None, tests: 0, hits: 0 };
    let ghost goal = hunt(scene_objects@, nodes@, indices@, origin, direction, near);
    let ghost rays = stats.num_rays_shot as int;
    let ghost tests = old(stats).num_tringle_tests as int;
    let ghost hits = old(stats).num_triangles_intersected as int;

    loop
        invariant_except_break
            goal == drain(
                scene_objects@,
                nodes@,
                indices@,
                origin,
                direction,
                near,
                pending,
                visit(
                    scene_objects@,
                    nodes@,
                    indices@,
                    origin,
                    direction,
                    near,
                    current_node_index as int,
                    current_end,
                    tally,
                ),
            ),
        invariant
            origin.in_range(),
            direction.in_range(),
            searchable(scene_objects@, nodes@, indices@),
            sign_of(direction, sign),
            layout(nodes@, current_node_index as int, current_end, indices@.len() as int),
            pending.len() == nodes_to_visit.len(),
            forall|k: int|
                0 <= k < pending.len() ==> (#[trigger] pending[k]).0 == nodes_to_visit@[k] && layout(
                    nodes@,
                    pending[k].0,
                    pending[k].1,
                    indices@.len() as int,
                ),
            0 <= tests,
            0 <= hits,
            found == tally.best,
            0 <= tally.tests,
            0 <= tally.hits,
            stats.num_rays_shot == rays,
            stats.num_tringle_tests == capped(tests + tally.tests),
            stats.num_triangles_intersected == capped(hits + tally.hits),
        ensures
            goal == tally,
            found == tally.best,
            stats.num_rays_shot == rays,
            stats.num_tringle_tests == capped(tests + tally.tests),
            stats.num_triangles_intersected == capped(hits + tally.hits),
        decreases current_end - current_node_index + load(pending),
    {
        proof {
            lemma_load_is_not_negative(pending);
        }
        let node = nodes[current_node_index];
        let hit_box = node.bounding_box.intersect(origin, direction, sign);
        if hit_box && node.num_prim == 0 {
            let second: usize = node.second_child_offset as usize;
            let ghost old_pending = pending;
            if sign[node.axis as usize] == 1 {
                nodes_to_visit.push(current_node_index + 1);
                proof {
                    pending = pending.push((current_node_index + 1, second as int));
                    assert(pending.drop_last() =~= old_pending);
                }
                current_node_index = second;
            } else {
                nodes_to_visit.push(second);
                proof {
                    pending = pending.push((second as int, current_end));
                    assert(pending.drop_last() =~= old_pending);
                    current_end = second as int;
                }
                current_node_index = current_node_index + 1;
            }
        } else {
            if hit_box {
                let after = search_leaf(
                    origin,
                    direction,
                    scene_objects,
                    indices,
                    near,
                    &node,
                    &mut found,
                    stats,
                    Ghost(tally),
                    Ghost(rays),
                    Ghost(tests),
                    Ghost(hits),
                );
                proof {
                    tally = after@;
                }
            }
            if nodes_to_visit.len() == 0 {
                break ;
            }
            let next = nodes_to_visit.pop().unwrap();
            proof {
                current_end = pending.last().1;
                pending = pending.drop_last();
            }
            current_node_index = next;
        }
    }
    found
}

} // verus!
