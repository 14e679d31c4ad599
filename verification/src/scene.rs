use crate::builder::{build_bvh, built};
use crate::bvh::{join_all, layout, LinearBVHNode, MAX_OBJECTS};
use crate::geometry::{BoundingBox, Mesh};
use crate::ray_tracer::{capped, hunt, trace, Distance, RayType, RenderSettings, Stats, TraceResult};
use crate::vector::Vector;
use vstd::prelude::*;

verus! {

/// One object of the scene: its mesh, the number of its material in the
/// renderer's material table, and the box around the mesh.
pub struct SceneObject {
    pub mesh: Mesh,
    pub material: usize,
    pub bounding_box: BoundingBox,
}

impl SceneObject {
    pub fn new(mesh: Mesh, material: usize, bounding_box: BoundingBox) -> (object: Self)
        ensures
            object.mesh == mesh,
            object.material == material,
            object.bounding_box == bounding_box,
    {
        SceneObject { mesh, material, bounding_box }
    }

    /// Whether the object is well formed.
    pub fn is_wf(&self) -> (legal: bool)
        ensures
            legal == self.wf(),
    {
        self.mesh.is_wf() && self.bounding_box.is_usable()
    }

    /// The mesh is well formed and the box is a legal, inhabited box.
    pub open spec fn wf(&self) -> bool {
        &&& self.mesh.wf()
        &&& self.bounding_box.in_range()
        &&& self.bounding_box.inhabited()
    }
}

/// The boxes of the objects, in the order of the objects.
pub open spec fn object_boxes(objects: Seq<SceneObject>) -> Seq<BoundingBox> {
    Seq::new(objects.len(), |i: int| objects[i].bounding_box)
}

/// Every object of the sequence is well formed.
pub open spec fn objects_wf(objects: Seq<SceneObject>) -> bool {
    forall|i: int| 0 <= i < objects.len() ==> (#[trigger] objects[i]).wf()
}

/// What a ray query reads: the objects, the flat hierarchy over them and
/// the object order that the leaves of the hierarchy index.
pub struct SceneData {
    pub bvh: Vec<LinearBVHNode>,
    pub object_indices: Vec<usize>,
    pub scene_objects: Vec<SceneObject>,
}

/// The hierarchy obeys the layout rule, its leaves name slots of the
/// object order, and every slot names an object.
pub open spec fn searchable(
    objects: Seq<SceneObject>,
    nodes: Seq<LinearBVHNode>,
    indices: Seq<usize>,
) -> bool {
    &&& objects_wf(objects)
    &&& nodes.len() <= 0x7fff_ffff
    &&& layout(nodes, 0, nodes.len() as int, indices.len() as int)
    &&& forall|k: int| 0 <= k < indices.len() ==> (#[trigger] indices[k]) < objects.len()
}

impl SceneData {
    /// The scene can be searched by a ray query.
    pub open spec fn wf(&self) -> bool {
        searchable(self.scene_objects@, self.bvh@, self.object_indices@)
    }
}

/// Every vertex of the object's mesh lies in the object's box.
pub open spec fn mesh_within_box(object: SceneObject) -> bool {
    forall|i: int|
        0 <= i < object.mesh.vertices@.len() ==> object.bounding_box.holds(
            (#[trigger] object.mesh.vertices@[i]).pos,
        )
}

/// Every object's mesh lies in the object's box.
pub open spec fn meshes_within_boxes(objects: Seq<SceneObject>) -> bool {
    forall|i: int| 0 <= i < objects.len() ==> mesh_within_box(#[trigger] objects[i])
}

/// The first `count` vertex positions of the mesh, each as a box of one
/// point.
pub open spec fn vertex_boxes(mesh: Mesh, count: int) -> Seq<BoundingBox> {
    Seq::new(count as nat, |i: int| BoundingBox::point(mesh.vertices@[i].pos))
}

/// The smallest box around the vertices of a mesh.
pub fn mesh_bounds(mesh: &Mesh) -> (bounds: BoundingBox)
    requires
        mesh.wf(),
    ensures
        bounds == join_all(vertex_boxes(*mesh, mesh.vertices@.len() as int)),
        bounds.in_range(),
        forall|i: int|
            0 <= i < mesh.vertices@.len() ==> bounds.holds((#[trigger] mesh.vertices@[i]).pos),
        mesh.vertices@.len() > 0 ==> bounds.inhabited(),
{
    let mut bounds = BoundingBox::new();
    let mut i: usize = 0;
    while i < mesh.vertices.len()
        invariant
            i <= mesh.vertices@.len(),
            mesh.wf(),
            bounds == join_all(vertex_boxes(*mesh, i as int)),
            bounds.in_range(),
            forall|k: int| 0 <= k < i ==> bounds.holds((#[trigger] mesh.vertices@[k]).pos),
            i > 0 ==> bounds.inhabited(),
        decreases mesh.vertices@.len() - i,
    {
        assert(vertex_boxes(*mesh, i + 1).drop_last() =~= vertex_boxes(*mesh, i as int));
        bounds.extend_bounds(mesh.vertices[i].pos);
        i += 1;
    }
    bounds
}

/// Makes a scene object of a mesh that has at least one vertex: the box is
/// the smallest one around the vertices.
pub fn create_scene_object(mesh: Mesh, material: usize) -> (object: SceneObject)
    requires
        mesh.wf(),
        mesh.vertices@.len() > 0,
    ensures
        object.mesh == mesh,
        object.material == material,
        object.bounding_box == join_all(vertex_boxes(mesh, mesh.vertices@.len() as int)),
        object.wf(),
        mesh_within_box(object),
{
    let bounding_box = mesh_bounds(&mesh);
    SceneObject::new(mesh, material, bounding_box)
}

/// Whether every object is well formed.
pub fn all_objects_wf(objects: &Vec<SceneObject>) -> (legal: bool)
    ensures
        legal == objects_wf(objects@),
{
    let mut i: usize = 0;
    while i < objects.len()
        invariant
            i <= objects@.len(),
            forall|k: int| 0 <= k < i ==> (#[trigger] objects@[k]).wf(),
        decreases objects@.len() - i,
    {
        if !objects[i].is_wf() {
            return false;
        }
        i += 1;
    }
    true
}

/// What a ray brings back from the scene.
#[derive(Clone, Copy, Debug, PartialEq, Eq, Structural)]
pub enum Cast {
    /// Nothing was hit: the ray sees the background colour of the
    /// settings.
    Background(Vector),
    /// The nearest surface that was hit, for the renderer to shade.
    Surface(TraceResult),
}

/// Sends a ray into the scene and says what it sees: the nearest surface,
/// or the background when nothing is hit or when the ray is deeper than
/// the settings allow.
pub fn cast_ray(
    origin: Vector,
    direction: Vector,
    scene: &SceneData,
    current_ray_depth: u32,
    settings: RenderSettings,
    ray_type: RayType,
    stats: &mut Stats,
) -> (cast: Cast)
    requires
        origin.in_range(),
        direction.in_range(),
        scene.wf(),
    ensures
        current_ray_depth > settings.max_ray_depth ==> cast == Cast::Background(
            settings.background_color,
        ) && *final(stats) == *old(stats),
        current_ray_depth <= settings.max_ray_depth ==> ({
            let tally = hunt(
                scene.scene_objects@,
                scene.bvh@,
                scene.object_indices@,
                origin,
                direction,
                None,
            );
            &&& cast == match tally.best {
                None => Cast::Background(settings.background_color),
                Some(hit) => Cast::Surface(hit),
            }
            &&& final(stats).num_rays_shot == capped(old(stats).num_rays_shot + 1)
            &&& final(stats).num_tringle_tests == capped(
                old(stats).num_tringle_tests + tally.tests,
            )
            &&& final(stats).num_triangles_intersected == capped(
                old(stats).num_triangles_intersected + tally.hits,
            )
        }),
{
    match trace(
        origin,
        direction,
        scene.scene_objects.as_slice(),
        scene.bvh.as_slice(),
        scene.object_indices.as_slice(),
        None,
        current_ray_depth,
        settings,
        ray_type,
        stats,
    ) {
        None => Cast::Background(settings.background_color),
        Some(hit) => Cast::Surface(hit),
    }
}

impl SceneData {
    /// Builds the hierarchy over the objects if there is at least one, not
    /// more than the hierarchy can index, and all are well formed; hands
    /// the objects back otherwise.
    pub fn build(scene_objects: Vec<SceneObject>) -> (outcome: Result<Self, Vec<SceneObject>>)
        ensures
            outcome is Ok <==> 1 <= scene_objects@.len() <= MAX_OBJECTS && objects_wf(
                scene_objects@,
            ),
            outcome matches Ok(scene) ==> scene.scene_objects == scene_objects && scene.wf()
                && built(scene.scene_objects@, scene.bvh@, scene.object_indices@),
            outcome matches Err(objects) ==> objects == scene_objects,
    {
        if scene_objects.len() < 1 || scene_objects.len() > MAX_OBJECTS || !all_objects_wf(
            &scene_objects,
        ) {
            return Err(scene_objects);
        }
        Ok(SceneData::new(scene_objects))
    }

    /// The nearest hit of a ray in the scene, as `trace` finds it. A ray
    /// whose origin or direction is no legal coordinate finds nothing and
    /// is not counted.
    pub fn nearest_hit(
        &self,
        origin: Vector,
        direction: Vector,
        near: Option<Distance>,
        current_ray_depth: u32,
        settings: RenderSettings,
        ray_type: RayType,
        stats: &mut Stats,
    ) -> (found: Option<TraceResult>)
        requires
            self.wf(),
        ensures
            !(origin.in_range() && direction.in_range()) || current_ray_depth
                > settings.max_ray_depth ==> found is None && *final(stats) == *old(stats),
            origin.in_range() && direction.in_range() && current_ray_depth
                <= settings.max_ray_depth ==> ({
                let tally = hunt(
                    self.scene_objects@,
                    self.bvh@,
                    self.object_indices@,
                    origin,
                    direction,
                    near,
                );
                &&& found == tally.best
                &&& final(stats).num_rays_shot == capped(old(stats).num_rays_shot + 1)
                &&& final(stats).num_tringle_tests == capped(
                    old(stats).num_tringle_tests + tally.tests,
                )
                &&& final(stats).num_triangles_intersected == capped(
                    old(stats).num_triangles_intersected + tally.hits,
                )
            }),
    {
        if !origin.is_in_range() || !direction.is_in_range() {
            return None;
        }
        trace(
            origin,
            direction,
            self.scene_objects.as_slice(),
            self.bvh.as_slice(),
            self.object_indices.as_slice(),
            near,
            current_ray_depth,
            settings,
            ray_type,
            stats,
        )
    }

    /// Builds the hierarchy over the objects and keeps all three together.
    pub fn new(scene_objects: Vec<SceneObject>) -> (scene: Self)
        requires
            1 <= scene_objects@.len() <= MAX_OBJECTS,
            objects_wf(scene_objects@),
        ensures
            scene.scene_objects == scene_objects,
            scene.wf(),
            built(scene.scene_objects@, scene.bvh@, scene.object_indices@),
    {
        let (bvh, object_indices) = build_bvh(scene_objects.as_slice());
        SceneData { bvh, object_indices, scene_objects }
    }
}

} // verus!
