use path_tracer::geometry::{create_box, create_plane, create_triangle, BoundingBox, Mesh, Vertex};
use path_tracer::ray_tracer::{Distance, RayType, RenderSettings, Stats};
use path_tracer::scene::{
    all_objects_wf, cast_ray, create_scene_object, mesh_bounds, Cast, SceneData, SceneObject,
};
use path_tracer::vector::{Vector, COORD_MAX, COORD_MIN};

fn settings(depth: u32) -> RenderSettings {
    RenderSettings::new(8, 8, depth, 1, 1, 1, Vector::vec3(0, 0, 0))
}

fn moved(mut mesh: Mesh, by: Vector) -> Mesh {
    for v in mesh.vertices.iter_mut() {
        v.pos = Vector::vec3(v.pos.x + by.x, v.pos.y + by.y, v.pos.z + by.z);
    }
    mesh
}

#[test]
fn triangle_mesh_has_three_corners() {
    let mesh = create_triangle();
    assert!(mesh.is_wf());
    assert_eq!(mesh.num_tris, 1);
    assert_eq!(mesh.indices, vec![0, 1, 2]);
    let corners: Vec<Vector> = mesh.vertices.iter().map(|v| v.pos).collect();
    assert_eq!(corners, vec![Vector::vec3(-1, -1, 0), Vector::vec3(1, -1, 0), Vector::vec3(0, 1, 0)]);
    assert!(mesh.vertices.iter().all(|v| v.normal == Vector::vec3(0, 0, 1)));
}

#[test]
fn box_mesh_has_six_faces_of_two_triangles() {
    let mesh = create_box(10, 20, 30);
    assert!(mesh.is_wf());
    assert_eq!(mesh.num_tris, 12);
    assert_eq!(mesh.vertices.len(), 24);
    assert_eq!(mesh.indices.len(), 36);
    for v in &mesh.vertices {
        assert_eq!((v.pos.x.abs(), v.pos.y.abs(), v.pos.z.abs()), (5, 10, 15));
        let n = v.normal;
        assert_eq!(n.x.abs() + n.y.abs() + n.z.abs(), 1);
        // Every corner lies on the face its normal points out of.
        assert_eq!(n.x * v.pos.x + n.y * v.pos.y + n.z * v.pos.z, n.x.abs() * 5 + n.y.abs() * 10 + n.z.abs() * 15);
    }
    let bounds = mesh_bounds(&mesh);
    assert_eq!(bounds.lower, Vector::vec3(-5, -10, -15));
    assert_eq!(bounds.upper, Vector::vec3(5, 10, 15));
}

#[test]
fn box_of_odd_size_reaches_half_rounded_down() {
    let mesh = create_box(5, 1, 0);
    let bounds = mesh_bounds(&mesh);
    assert_eq!(bounds.lower, Vector::vec3(-2, 0, 0));
    assert_eq!(bounds.upper, Vector::vec3(2, 0, 0));
}

#[test]
fn ray_through_a_box_hits_the_near_face() {
    let object = create_scene_object(moved(create_box(10, 10, 10), Vector::vec3(0, 0, -100)), 3);
    assert_eq!(object.material, 3);
    let scene = SceneData::new(vec![object]);
    let mut stats = Stats::default();
    let hit = scene
        .nearest_hit(Vector::vec3(1, 2, 0), Vector::vec3(0, 0, -1), None, 0, settings(1), RayType::CameraRay, &mut stats)
        .expect("the box stands in the way");
    assert_eq!(hit.t, 95 * hit.scale);
    assert_eq!(hit.mesh_index, 0);
    assert_eq!(stats.num_tringle_tests, 12);
    assert_eq!(stats.num_triangles_intersected, 2);
}

#[test]
fn plane_mesh_is_a_grid() {
    let mesh = create_plane(80, 40, 5, 3);
    assert!(mesh.is_wf());
    assert_eq!(mesh.vertices.len(), 15);
    assert_eq!(mesh.num_tris, 4 * 2 * 2);
    assert_eq!(mesh.indices.len(), 48);
    let xs: Vec<i64> = mesh.vertices[..5].iter().map(|v| v.pos.x).collect();
    assert_eq!(xs, vec![-40, -20, 0, 20, 40]);
    let zs: Vec<i64> = (0..3).map(|i| mesh.vertices[i * 5].pos.z).collect();
    assert_eq!(zs, vec![20, 0, -20]);
    assert!(mesh.vertices.iter().all(|v| v.pos.y == 0 && v.normal == Vector::vec3(0, 1, 0)));
    assert_eq!(&mesh.indices[..6], &[0, 1, 5, 5, 1, 6]);
    assert_eq!(&mesh.indices[42..], &[8, 9, 13, 13, 9, 14]);
}

#[test]
fn plane_of_uneven_size_keeps_its_ends() {
    let mesh = create_plane(10, 7, 4, 2);
    let xs: Vec<i64> = mesh.vertices[..4].iter().map(|v| v.pos.x).collect();
    assert_eq!(xs, vec![-5, -2, 1, 5]);
    let zs: Vec<i64> = (0..2).map(|i| mesh.vertices[i * 4].pos.z).collect();
    assert_eq!(zs, vec![3, -4]);
}

#[test]
fn every_point_above_a_plane_sees_it() {
    let object = create_scene_object(create_plane(100, 100, 6, 6), 0);
    let scene = SceneData::new(vec![object]);
    let mut stats = Stats::default();
    for x in -50..=50 {
        for z in [-50, -17, 0, 23, 50] {
            let hit = scene.nearest_hit(
                Vector::vec3(x, 30, z),
                Vector::vec3(0, -1, 0),
                None,
                0,
                settings(1),
                RayType::CameraRay,
                &mut stats,
            );
            let hit = hit.expect("the plane lies below");
            assert_eq!(hit.t, 30 * hit.scale);
        }
    }
}

#[test]
fn mesh_bounds_are_the_smallest_box() {
    let mesh = moved(create_triangle(), Vector::vec3(10, 20, 30));
    let bounds = mesh_bounds(&mesh);
    assert_eq!(bounds.lower, Vector::vec3(9, 19, 30));
    assert_eq!(bounds.upper, Vector::vec3(11, 21, 30));
    let empty = Mesh { vertices: Vec::new(), indices: Vec::new(), num_tris: 0 };
    assert_eq!(mesh_bounds(&empty), BoundingBox::new());
}

#[test]
fn malformed_meshes_are_told_apart() {
    let good = create_triangle();
    assert!(good.is_wf());
    let short = Mesh { vertices: create_triangle().vertices, indices: vec![0, 1], num_tris: 1 };
    assert!(!short.is_wf());
    let counted_wrong = Mesh { vertices: create_triangle().vertices, indices: vec![0, 1, 2], num_tris: 2 };
    assert!(!counted_wrong.is_wf());
    let dangling = Mesh { vertices: create_triangle().vertices, indices: vec![0, 1, 3], num_tris: 1 };
    assert!(!dangling.is_wf());
    let n = Vector::vec3(0, 0, 1);
    let far = Mesh {
        vertices: vec![
            Vertex::new(Vector::vec3(0, 0, 0), n),
            Vertex::new(Vector::vec3(COORD_MAX + 1, 0, 0), n),
            Vertex::new(Vector::vec3(0, 1, 0), n),
        ],
        indices: vec![0, 1, 2],
        num_tris: 1,
    };
    assert!(!far.is_wf());
}

#[test]
fn coordinates_are_legal_up_to_the_limit() {
    assert!(Vector::vec3(COORD_MAX, COORD_MIN, 0).is_in_range());
    assert!(!Vector::vec3(COORD_MAX + 1, 0, 0).is_in_range());
    assert!(!Vector::vec3(0, COORD_MIN - 1, 0).is_in_range());
    assert!(!Vector::vec3(0, 0, i64::MAX).is_in_range());
    assert!(Vector::vec4(0, 0, 0, i64::MAX).is_in_range());
}

#[test]
fn boxes_are_usable_when_legal_and_inhabited() {
    let b = BoundingBox { lower: Vector::vec3(0, 0, 0), upper: Vector::vec3(0, 1, 2) };
    assert!(b.is_usable());
    assert!(!BoundingBox::new().is_usable());
    let far = BoundingBox { lower: Vector::vec3(0, 0, 0), upper: Vector::vec3(COORD_MAX + 1, 1, 2) };
    assert!(!far.is_usable());
}

#[test]
fn scene_object_keeps_its_parts() {
    let b = BoundingBox { lower: Vector::vec3(-1, -1, 0), upper: Vector::vec3(1, 1, 0) };
    let object = SceneObject::new(create_triangle(), 7, b);
    assert_eq!(object.material, 7);
    assert_eq!(object.bounding_box, b);
    assert_eq!(object.mesh.num_tris, 1);
    assert!(object.is_wf());
    let boxless = SceneObject::new(create_triangle(), 7, BoundingBox::new());
    assert!(!boxless.is_wf());
    assert!(all_objects_wf(&vec![object]));
    assert!(!all_objects_wf(&vec![create_scene_object(create_triangle(), 0), boxless]));
}

#[test]
fn scene_is_built_only_from_legal_objects() {
    assert!(SceneData::build(Vec::new()).is_err());
    let boxless = SceneObject::new(create_triangle(), 7, BoundingBox::new());
    match SceneData::build(vec![create_scene_object(create_triangle(), 0), boxless]) {
        Err(objects) => assert_eq!(objects.len(), 2),
        Ok(_) => panic!("an object without a box is not legal"),
    }
    let scene = SceneData::build(vec![
        create_scene_object(create_triangle(), 0),
        create_scene_object(moved(create_triangle(), Vector::vec3(100, 0, 0)), 1),
    ])
    .ok()
    .expect("two triangles make a scene");
    assert_eq!(scene.bvh.len(), 3);
    assert_eq!(scene.object_indices, vec![0, 1]);
    assert_eq!(scene.scene_objects.len(), 2);
}

#[test]
fn checked_query_refuses_rays_off_the_lattice() {
    let scene = SceneData::new(vec![create_scene_object(create_triangle(), 0)]);
    let mut stats = Stats::default();
    let down = Vector::vec3(0, 0, -1);
    let hit = scene.nearest_hit(Vector::vec3(0, 0, 5), down, None, 0, settings(1), RayType::CameraRay, &mut stats);
    assert_eq!(hit.map(|h| (h.t, h.scale, h.mesh_index, h.triangle_index)), Some((20, 4, 0, 0)));
    assert_eq!(stats.num_rays_shot, 1);
    let off = scene.nearest_hit(Vector::vec3(0, 0, COORD_MAX + 5), down, None, 0, settings(1), RayType::CameraRay, &mut stats);
    assert_eq!(off, None);
    let wild = scene.nearest_hit(Vector::vec3(0, 0, 5), Vector::vec3(0, 0, COORD_MIN - 1), None, 0, settings(1), RayType::CameraRay, &mut stats);
    assert_eq!(wild, None);
    assert_eq!(stats.num_rays_shot, 1);
    let limited = scene.nearest_hit(
        Vector::vec3(0, 0, 5),
        down,
        Some(Distance { t: 5, scale: 1 }),
        0,
        settings(1),
        RayType::ShadowRay,
        &mut stats,
    );
    assert_eq!(limited, None);
    assert_eq!(stats.num_rays_shot, 2);
}

#[test]
fn cast_ray_sees_the_surface_or_the_background() {
    let scene = SceneData::new(vec![create_scene_object(create_triangle(), 0)]);
    let sky = Vector::vec3(219, 235, 255);
    let with_sky = RenderSettings::new(8, 8, 1, 1, 1, 1, sky);
    let mut stats = Stats::default();
    let down = Vector::vec3(0, 0, -1);
    let seen = cast_ray(Vector::vec3(0, 0, 5), down, &scene, 0, with_sky, RayType::CameraRay, &mut stats);
    match seen {
        Cast::Surface(hit) => assert_eq!((hit.t, hit.scale, hit.mesh_index), (20, 4, 0)),
        Cast::Background(_) => panic!("the triangle lies below"),
    }
    let missed = cast_ray(Vector::vec3(9, 9, 5), down, &scene, 0, with_sky, RayType::CameraRay, &mut stats);
    assert_eq!(missed, Cast::Background(sky));
    assert_eq!(stats.num_rays_shot, 2);
    let too_deep = cast_ray(Vector::vec3(0, 0, 5), down, &scene, 2, with_sky, RayType::DiffuseRay, &mut stats);
    assert_eq!(too_deep, Cast::Background(sky));
    assert_eq!(stats.num_rays_shot, 2);
}
