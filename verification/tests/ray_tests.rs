use path_tracer::builder::build_bvh;
use path_tracer::geometry::{BoundingBox, Mesh, Vertex};
use path_tracer::math::clamp;
use path_tracer::ray_tracer::{
    intersect_mesh, intersect_triangle, is_nearer, pixel_of_job, trace, Distance, RayType,
    RenderSettings, Stats, TraceResult,
};
use path_tracer::scene::SceneObject;
use path_tracer::vector::Vector;

const UNIT: f64 = 1000.0;

fn settings(depth: u32) -> RenderSettings {
    RenderSettings::new(64, 64, depth, 4, 4, 1, Vector::vec3(0, 0, 0))
}

fn lattice(x: f64, y: f64, z: f64) -> Vector {
    Vector::vec3(x.round() as i64, y.round() as i64, z.round() as i64)
}

/// A sphere of the given radius around `centre`, poles on the y axis.
fn sphere(centre: (f64, f64, f64), radius: f64, slices: u32, stacks: u32) -> Mesh {
    let at = |x: f64, y: f64, z: f64| {
        Vertex::new(
            lattice((centre.0 + x) * UNIT, (centre.1 + y) * UNIT, (centre.2 + z) * UNIT),
            lattice(x * UNIT, y * UNIT, z * UNIT),
        )
    };
    let mut vertices = vec![at(0.0, radius, 0.0)];
    let mut indices = Vec::new();
    let phi_step = std::f64::consts::PI / stacks as f64;
    let theta_step = std::f64::consts::PI * 2.0 / slices as f64;
    for i in 1..stacks {
        let phi = phi_step * i as f64;
        for j in 0..slices + 1 {
            let theta = theta_step * j as f64;
            vertices.push(at(
                radius * phi.sin() * theta.cos(),
                radius * phi.cos(),
                radius * phi.sin() * theta.sin(),
            ));
        }
    }
    vertices.push(at(0.0, -radius, 0.0));
    for i in 1..slices + 1 {
        indices.extend([0, i + 1, i]);
    }
    let ring = slices + 1;
    for i in 0..stacks - 2 {
        for j in 0..slices {
            indices.extend([1 + ring * i + j, 1 + ring * i + j + 1, 1 + ring * (i + 1) + j]);
            indices.extend([1 + ring * (i + 1) + j, 1 + ring * i + j + 1, 1 + ring * (i + 1) + j + 1]);
        }
    }
    let bottom = vertices.len() as u32 - 1;
    let offset = bottom - ring;
    for i in 0..slices {
        indices.extend([bottom, offset + i, offset + i + 1]);
    }
    let num_tris = (indices.len() / 3) as u32;
    Mesh { vertices, indices, num_tris }
}

fn object(mesh: Mesh, material: usize) -> SceneObject {
    let mut bounds = BoundingBox::new();
    for v in &mesh.vertices {
        bounds.extend_bounds(v.pos);
    }
    SceneObject::new(mesh, material, bounds)
}

fn triangle_mesh(a: Vector, b: Vector, c: Vector) -> Mesh {
    let n = Vector::vec3(0, 0, 1);
    Mesh {
        vertices: vec![Vertex::new(a, n), Vertex::new(b, n), Vertex::new(c, n)],
        indices: vec![0, 1, 2],
        num_tris: 1,
    }
}

fn cast(objects: &[SceneObject], origin: Vector, direction: Vector, near: Option<Distance>) -> (Option<TraceResult>, Stats) {
    let (nodes, order) = build_bvh(objects);
    let mut stats = Stats::default();
    let hit = trace(origin, direction, objects, &nodes, &order, near, 0, settings(2), RayType::CameraRay, &mut stats);
    (hit, stats)
}

/// The nearest hit found by testing every triangle of every object.
fn brute_force(objects: &[SceneObject], origin: Vector, direction: Vector) -> Option<(i64, i64)> {
    let mut best: Option<(i64, i64)> = None;
    let mut stats = Stats::default();
    for o in objects {
        if let Some(hit) = intersect_mesh(origin, direction, &o.mesh, &mut stats) {
            let nearer = match best {
                None => true,
                Some((t, scale)) => is_nearer(hit.t, hit.scale, t, scale),
            };
            if nearer {
                best = Some((hit.t, hit.scale));
            }
        }
    }
    best
}

#[test]
fn triangle_hit_returns_the_chosen_barycentric_point() {
    let v0 = Vector::vec3(0, 0, 0);
    let v1 = Vector::vec3(4, 0, 0);
    let v2 = Vector::vec3(0, 4, 0);
    let mut stats = Stats::default();
    // The point v0 + 1/4 (v1 - v0) + 1/4 (v2 - v0) = (1, 1, 0), seen from five above.
    let hit = intersect_triangle(Vector::vec3(1, 1, 5), Vector::vec3(0, 0, -1), v0, v1, v2, &mut stats)
        .expect("the ray passes through the triangle");
    assert_eq!((hit.u, hit.v, hit.t, hit.scale), (4, 4, 80, 16));
    assert_eq!(hit.u * 4, hit.scale);
    assert_eq!(hit.v * 4, hit.scale);
    assert_eq!(hit.t, 5 * hit.scale);
    assert_eq!(stats.num_tringle_tests, 1);
    assert_eq!(stats.num_triangles_intersected, 1);
    assert_eq!(stats.num_rays_shot, 0);
}

#[test]
fn triangle_hit_round_trip_for_a_slanted_ray() {
    let v0 = Vector::vec3(10, 20, 30);
    let v1 = Vector::vec3(110, 20, 40);
    let v2 = Vector::vec3(10, 220, 50);
    // Aim at v0 + 3/10 e1 + 1/2 e2 = (40, 120, 43) from (0, 0, 243).
    let origin = Vector::vec3(0, 0, 243);
    let direction = Vector::vec3(40, 120, -200);
    let mut stats = Stats::default();
    let hit = intersect_triangle(origin, direction, v0, v1, v2, &mut stats).expect("aimed at the triangle");
    assert_eq!(hit.u * 10, hit.scale * 3);
    assert_eq!(hit.v * 2, hit.scale);
    assert_eq!(hit.t, hit.scale);
    assert!(hit.scale > 0);
}

#[test]
fn triangle_is_hit_from_both_sides() {
    let v0 = Vector::vec3(0, 0, 0);
    let v1 = Vector::vec3(4, 0, 0);
    let v2 = Vector::vec3(0, 4, 0);
    let mut stats = Stats::default();
    let front = intersect_triangle(Vector::vec3(1, 1, 5), Vector::vec3(0, 0, -1), v0, v1, v2, &mut stats).unwrap();
    let back = intersect_triangle(Vector::vec3(1, 1, -5), Vector::vec3(0, 0, 1), v0, v1, v2, &mut stats).unwrap();
    assert_eq!((front.u, front.v, front.t, front.scale), (back.u, back.v, back.t, back.scale));
    assert_eq!(stats.num_tringle_tests, 2);
    assert_eq!(stats.num_triangles_intersected, 2);
}

#[test]
fn parallel_ray_misses_the_triangle() {
    let mut stats = Stats::default();
    let hit = intersect_triangle(
        Vector::vec3(1, 1, 5),
        Vector::vec3(1, 0, 0),
        Vector::vec3(0, 0, 0),
        Vector::vec3(4, 0, 0),
        Vector::vec3(0, 4, 0),
        &mut stats,
    );
    assert_eq!(hit, None);
    assert_eq!(stats.num_tringle_tests, 1);
    assert_eq!(stats.num_triangles_intersected, 0);
}

#[test]
fn triangle_behind_the_origin_is_missed() {
    let mut stats = Stats::default();
    let hit = intersect_triangle(
        Vector::vec3(1, 1, 5),
        Vector::vec3(0, 0, 1),
        Vector::vec3(0, 0, 0),
        Vector::vec3(4, 0, 0),
        Vector::vec3(0, 4, 0),
        &mut stats,
    );
    assert_eq!(hit, None);
}

#[test]
fn ray_outside_the_triangle_misses() {
    let v0 = Vector::vec3(0, 0, 0);
    let v1 = Vector::vec3(4, 0, 0);
    let v2 = Vector::vec3(0, 4, 0);
    let down = Vector::vec3(0, 0, -1);
    let mut stats = Stats::default();
    assert_eq!(intersect_triangle(Vector::vec3(-1, 1, 5), down, v0, v1, v2, &mut stats), None);
    assert_eq!(intersect_triangle(Vector::vec3(1, -1, 5), down, v0, v1, v2, &mut stats), None);
    assert_eq!(intersect_triangle(Vector::vec3(3, 3, 5), down, v0, v1, v2, &mut stats), None);
    assert_eq!(stats.num_tringle_tests, 3);
    assert_eq!(stats.num_triangles_intersected, 0);
}

#[test]
fn triangle_edges_and_corners_belong_to_the_triangle() {
    let v0 = Vector::vec3(0, 0, 0);
    let v1 = Vector::vec3(4, 0, 0);
    let v2 = Vector::vec3(0, 4, 0);
    let down = Vector::vec3(0, 0, -1);
    let mut stats = Stats::default();
    for p in [(0, 0), (4, 0), (0, 4), (2, 2), (2, 0), (0, 2)] {
        assert!(intersect_triangle(Vector::vec3(p.0, p.1, 5), down, v0, v1, v2, &mut stats).is_some());
    }
    let touching = intersect_triangle(Vector::vec3(1, 1, 0), down, v0, v1, v2, &mut stats).unwrap();
    assert_eq!(touching.t, 0);
}

#[test]
fn fractions_compare_by_cross_multiplication() {
    assert!(is_nearer(1, 2, 2, 3));
    assert!(!is_nearer(2, 3, 1, 2));
    assert!(!is_nearer(2, 4, 1, 2));
    assert!(is_nearer(i64::MAX - 1, i64::MAX, 1, 1));
}

#[test]
fn mesh_hit_is_the_nearest_triangle() {
    let n = Vector::vec3(0, 0, 1);
    let mut vertices = Vec::new();
    let mut indices = Vec::new();
    for (k, z) in [30i64, 10, 20].iter().enumerate() {
        vertices.push(Vertex::new(Vector::vec3(-5, -5, *z), n));
        vertices.push(Vertex::new(Vector::vec3(5, -5, *z), n));
        vertices.push(Vertex::new(Vector::vec3(0, 5, *z), n));
        indices.extend([3 * k as u32, 3 * k as u32 + 1, 3 * k as u32 + 2]);
    }
    let mesh = Mesh { vertices, indices, num_tris: 3 };
    let mut stats = Stats::default();
    let hit = intersect_mesh(Vector::vec3(0, 0, 0), Vector::vec3(0, 0, 1), &mesh, &mut stats).unwrap();
    assert_eq!(hit.triangle_index, 3);
    assert_eq!(hit.t, 10 * hit.scale);
    assert_eq!(stats.num_tringle_tests, 3);
    assert_eq!(stats.num_triangles_intersected, 3);

    let miss = intersect_mesh(Vector::vec3(100, 0, 0), Vector::vec3(0, 0, 1), &mesh, &mut stats);
    assert_eq!(miss, None);
    assert_eq!(stats.num_tringle_tests, 6);
    assert_eq!(stats.num_triangles_intersected, 3);
}

#[test]
fn of_two_equally_near_triangles_the_first_is_reported() {
    let n = Vector::vec3(0, 0, 1);
    let a = Vector::vec3(-5, -5, 10);
    let b = Vector::vec3(5, -5, 10);
    let c = Vector::vec3(0, 5, 10);
    let mesh = Mesh {
        vertices: vec![Vertex::new(a, n), Vertex::new(b, n), Vertex::new(c, n)],
        indices: vec![0, 1, 2, 1, 2, 0],
        num_tris: 2,
    };
    let mut stats = Stats::default();
    let hit = intersect_mesh(Vector::vec3(0, 0, 0), Vector::vec3(0, 0, 1), &mesh, &mut stats).unwrap();
    assert_eq!(hit.triangle_index, 0);
}

#[test]
fn counters_stop_at_the_largest_value() {
    let mut stats = Stats {
        num_rays_shot: 0,
        num_tringle_tests: u128::MAX,
        num_triangles_intersected: u128::MAX - 1,
    };
    let mesh = triangle_mesh(Vector::vec3(-5, -5, 10), Vector::vec3(5, -5, 10), Vector::vec3(0, 5, 10));
    intersect_mesh(Vector::vec3(0, 0, 0), Vector::vec3(0, 0, 1), &mesh, &mut stats).unwrap();
    intersect_mesh(Vector::vec3(0, 0, 0), Vector::vec3(0, 0, 1), &mesh, &mut stats).unwrap();
    assert_eq!(stats.num_tringle_tests, u128::MAX);
    assert_eq!(stats.num_triangles_intersected, u128::MAX);
}

#[test]
fn camera_ray_hits_the_front_of_a_unit_sphere() {
    let objects = vec![object(sphere((0.0, 0.0, 0.0), 1.0, 32, 16), 0)];
    let origin = lattice(0.0, 0.0, 5.0 * UNIT);
    let direction = Vector::vec3(0, 0, -1);
    let (hit, stats) = cast(&objects, origin, direction, None);
    let hit = hit.expect("the ray points at the sphere");
    assert_eq!(hit.mesh_index, 0);
    let t = hit.t as f64 / hit.scale as f64;
    // Four units away, where the surface is one unit in front of the centre.
    assert!((t / UNIT - 4.0).abs() < 0.01, "t = {}", t);
    let z = origin.z as f64 - t;
    assert!((z / UNIT - 1.0).abs() < 0.01);
    // The shading normal from the corner normals points back at the camera.
    let mesh = &objects[0].mesh;
    let corner = |k: usize| mesh.vertices[mesh.indices[hit.triangle_index + k] as usize].normal;
    let (u, v) = (hit.u as f64 / hit.scale as f64, hit.v as f64 / hit.scale as f64);
    let mix = |f: fn(&Vector) -> i64| {
        f(&corner(0)) as f64 * (1.0 - u - v) + f(&corner(1)) as f64 * u + f(&corner(2)) as f64 * v
    };
    let (nx, ny, nz) = (mix(|n| n.x), mix(|n| n.y), mix(|n| n.z));
    let length = (nx * nx + ny * ny + nz * nz).sqrt();
    assert!((nz / length - 1.0).abs() < 0.02);
    assert!((nx / length).abs() < 0.1 && (ny / length).abs() < 0.1);
    // The diffuse term goes with the cosine between the normal and the way
    // to the light, and not below zero: a light from straight above grazes
    // the front of the sphere, a light from the camera's side lights it.
    let cosine = |l: (f64, f64, f64)| (nx * l.0 + ny * l.1 + nz * l.2) / length;
    let from_above = clamp(cosine((0.0, 1.0, 0.0)), 0.0, 1.0);
    assert_eq!(from_above, cosine((0.0, 1.0, 0.0)).max(0.0));
    assert!(from_above < 0.1);
    let from_front = clamp(cosine((0.0, 0.0, 1.0)), 0.0, 1.0);
    assert!(from_front > 0.98 && from_front <= 1.0);
    assert_eq!(clamp(cosine((0.0, 0.0, -1.0)), 0.0, 1.0), 0.0);
    assert_eq!(stats.num_rays_shot, 1);
    assert_eq!(stats.num_tringle_tests, mesh.num_tris as u128);
    assert!(stats.num_triangles_intersected >= 2);
}

#[test]
fn small_sphere_inside_the_box_of_a_large_one_is_found() {
    // The large sphere sits at the origin; the small one sits in the corner
    // of the large sphere's box, outside the large sphere itself.
    let large = object(sphere((0.0, 0.0, 0.0), 10.0, 24, 12), 0);
    let small = object(sphere((8.5, 8.5, 8.5), 1.0, 16, 8), 1);
    assert!(large.bounding_box.lower.x <= small.bounding_box.lower.x);
    assert!(small.bounding_box.upper.x <= large.bounding_box.upper.x);
    assert!(small.bounding_box.upper.z <= large.bounding_box.upper.z);
    let objects = vec![large, small];
    let origin = lattice(8.5 * UNIT, 8.5 * UNIT, 50.0 * UNIT);
    let direction = Vector::vec3(0, 0, -1);
    let (hit, _) = cast(&objects, origin, direction, None);
    let hit = hit.expect("the ray points at the small sphere");
    assert_eq!(hit.mesh_index, 1);
    let t = hit.t as f64 / hit.scale as f64 / UNIT;
    assert!((t - 40.5).abs() < 0.05, "t = {}", t);
    assert_eq!(Some((hit.t, hit.scale)), brute_force(&objects, origin, direction));

    // The same query with the objects in the other order.
    let swapped = vec![object(sphere((8.5, 8.5, 8.5), 1.0, 16, 8), 1), object(sphere((0.0, 0.0, 0.0), 10.0, 24, 12), 0)];
    let (again, _) = cast(&swapped, origin, direction, None);
    let again = again.unwrap();
    assert_eq!(again.mesh_index, 0);
    assert_eq!((again.t, again.scale, again.u, again.v), (hit.t, hit.scale, hit.u, hit.v));
}

#[test]
fn trace_agrees_with_testing_every_triangle() {
    let mut objects = Vec::new();
    for i in 0..6 {
        for j in 0..6 {
            objects.push(object(sphere((i as f64 * 3.0, j as f64 * 3.0, (i * j) as f64 * 0.5), 1.0, 8, 6), i * 6 + j));
        }
    }
    let (nodes, order) = build_bvh(&objects);
    assert!(nodes.len() > 1);
    let mut stats = Stats::default();
    let mut found = 0;
    for a in -4..24 {
        for b in -4..24 {
            let origin = lattice(a as f64 * 0.7 * UNIT, b as f64 * 0.7 * UNIT, 40.0 * UNIT);
            for direction in [Vector::vec3(0, 0, -1), Vector::vec3(1, 2, -30), Vector::vec3(-3, 1, -20)] {
                let hit = trace(origin, direction, &objects, &nodes, &order, None, 0, settings(2), RayType::CameraRay, &mut stats);
                let expected = brute_force(&objects, origin, direction);
                assert_eq!(hit.map(|h| (h.t as i128 * expected.unwrap().1 as i128)), expected.map(|e| e.0 as i128 * hit.unwrap().scale as i128));
                if hit.is_some() {
                    found += 1;
                }
            }
        }
    }
    assert!(found > 100);
}

#[test]
fn repeated_trace_gives_the_same_hit() {
    let objects = vec![
        object(sphere((0.0, 0.0, 0.0), 2.0, 16, 8), 0),
        object(sphere((1.0, 0.0, 4.0), 1.0, 16, 8), 1),
        object(sphere((-3.0, 1.0, 2.0), 1.5, 16, 8), 2),
    ];
    let origin = lattice(0.3 * UNIT, 0.2 * UNIT, 20.0 * UNIT);
    let direction = Vector::vec3(1, 0, -40);
    let (first, first_stats) = cast(&objects, origin, direction, None);
    let (second, second_stats) = cast(&objects, origin, direction, None);
    assert!(first.is_some());
    assert_eq!(first, second);
    assert_eq!(first_stats.num_tringle_tests, second_stats.num_tringle_tests);
    assert_eq!(first_stats.num_triangles_intersected, second_stats.num_triangles_intersected);
}

#[test]
fn ray_deeper_than_the_limit_finds_nothing_and_is_not_counted() {
    let objects = vec![object(sphere((0.0, 0.0, 0.0), 1.0, 16, 8), 0)];
    let (nodes, order) = build_bvh(&objects);
    let origin = lattice(0.0, 0.0, 5.0 * UNIT);
    let direction = Vector::vec3(0, 0, -1);
    let mut stats = Stats::default();
    let none = trace(origin, direction, &objects, &nodes, &order, None, 1, settings(0), RayType::ShadowRay, &mut stats);
    assert_eq!(none, None);
    assert_eq!((stats.num_rays_shot, stats.num_tringle_tests, stats.num_triangles_intersected), (0, 0, 0));
    let at_limit = trace(origin, direction, &objects, &nodes, &order, None, 0, settings(0), RayType::CameraRay, &mut stats);
    assert!(at_limit.is_some());
    assert_eq!(stats.num_rays_shot, 1);
    let deep = trace(origin, direction, &objects, &nodes, &order, None, 3, settings(2), RayType::DiffuseRay, &mut stats);
    assert_eq!(deep, None);
    assert_eq!(stats.num_rays_shot, 1);
}

#[test]
fn hits_at_or_beyond_the_limit_distance_are_not_reported() {
    let objects = vec![object(
        triangle_mesh(Vector::vec3(-5, -5, 10), Vector::vec3(5, -5, 10), Vector::vec3(0, 5, 10)),
        0,
    )];
    let origin = Vector::vec3(0, 0, 0);
    let direction = Vector::vec3(0, 0, 1);
    assert!(cast(&objects, origin, direction, None).0.is_some());
    assert!(cast(&objects, origin, direction, Some(Distance { t: 11, scale: 1 })).0.is_some());
    assert!(cast(&objects, origin, direction, Some(Distance { t: 21, scale: 2 })).0.is_some());
    assert!(cast(&objects, origin, direction, Some(Distance { t: 10, scale: 1 })).0.is_none());
    assert!(cast(&objects, origin, direction, Some(Distance { t: 19, scale: 2 })).0.is_none());
}

#[test]
fn ray_that_misses_every_box_tests_no_triangle() {
    let objects = vec![
        object(sphere((0.0, 0.0, 0.0), 1.0, 16, 8), 0),
        object(sphere((5.0, 0.0, 0.0), 1.0, 16, 8), 1),
    ];
    let (hit, stats) = cast(&objects, lattice(0.0, 50.0 * UNIT, 0.0), Vector::vec3(0, 0, 1), None);
    assert_eq!(hit, None);
    assert_eq!(stats.num_rays_shot, 1);
    assert_eq!(stats.num_tringle_tests, 0);
}

#[test]
fn ray_types_compare() {
    assert!(RayType::CameraRay == RayType::CameraRay);
    assert!(RayType::CameraRay != RayType::ShadowRay);
    assert!(RayType::SpecularRay != RayType::DiffuseRay);
}

#[test]
fn jobs_go_through_the_image_row_by_row() {
    assert_eq!(pixel_of_job(0, 4, 3), Some((0, 0)));
    assert_eq!(pixel_of_job(3, 4, 3), Some((3, 0)));
    assert_eq!(pixel_of_job(4, 4, 3), Some((0, 1)));
    assert_eq!(pixel_of_job(11, 4, 3), Some((3, 2)));
    assert_eq!(pixel_of_job(12, 4, 3), None);
    assert_eq!(pixel_of_job(0, 0, 3), None);
    assert_eq!(pixel_of_job(0, 3, 0), None);
    let mut seen = vec![false; 12];
    for job in 0..12 {
        let (x, y) = pixel_of_job(job, 4, 3).unwrap();
        assert!(!seen[(y * 4 + x) as usize]);
        seen[(y * 4 + x) as usize] = true;
    }
}

#[test]
fn merged_counters_add_up_and_stop_at_the_largest_value() {
    let mut total = Stats { num_rays_shot: 1, num_tringle_tests: 10, num_triangles_intersected: u128::MAX - 1 };
    total.merge(Stats { num_rays_shot: 2, num_tringle_tests: 20, num_triangles_intersected: 5 });
    assert_eq!(total.num_rays_shot, 3);
    assert_eq!(total.num_tringle_tests, 30);
    assert_eq!(total.num_triangles_intersected, u128::MAX);
    let fresh = Stats::default();
    assert_eq!((fresh.num_rays_shot, fresh.num_tringle_tests, fresh.num_triangles_intersected), (0, 0, 0));
}

fn box_at(centre: (i64, i64, i64), size: (i64, i64, i64), material: usize) -> SceneObject {
    let mut mesh = path_tracer::geometry::create_box(size.0, size.1, size.2);
    for v in mesh.vertices.iter_mut() {
        v.pos = Vector::vec3(v.pos.x + centre.0, v.pos.y + centre.1, v.pos.z + centre.2);
    }
    path_tracer::scene::create_scene_object(mesh, material)
}

#[test]
fn nearest_distance_does_not_depend_on_the_hierarchy() {
    let mut seed: u64 = 2024;
    let mut next = move |span: i64| {
        seed = seed.wrapping_mul(6364136223846793005).wrapping_add(1442695040888963407);
        ((seed >> 33) as i64).rem_euclid(2 * span + 1) - span
    };
    let mut objects = Vec::new();
    for i in 0..40 {
        let centre = (next(300), next(300), next(300));
        let size = (next(40).abs() + 2, next(40).abs() + 2, next(40).abs() + 2);
        objects.push(box_at(centre, size, i));
    }
    let mut reversed: Vec<SceneObject> = Vec::new();
    for i in (0..40).rev() {
        let o = &objects[i];
        reversed.push(SceneObject::new(
            Mesh { vertices: o.mesh.vertices.clone(), indices: o.mesh.indices.clone(), num_tris: o.mesh.num_tris },
            o.material,
            o.bounding_box,
        ));
    }
    let (nodes_a, order_a) = build_bvh(&objects);
    let (nodes_b, order_b) = build_bvh(&reversed);
    let mut stats = Stats::default();
    let mut hits = 0;
    for _ in 0..3000 {
        let origin = Vector::vec3(next(400), next(400), next(400));
        let direction = match next(5) {
            0 => Vector::vec3(next(1), next(1), next(1)),
            1 => Vector::vec3(next(3), 0, next(3)),
            _ => Vector::vec3(next(50), next(50), next(50)),
        };
        let a = trace(origin, direction, &objects, &nodes_a, &order_a, None, 0, settings(1), RayType::CameraRay, &mut stats);
        let b = trace(origin, direction, &reversed, &nodes_b, &order_b, None, 0, settings(1), RayType::CameraRay, &mut stats);
        let plain = brute_force(&objects, origin, direction);
        assert_eq!(a.is_some(), b.is_some());
        assert_eq!(a.is_some(), plain.is_some());
        if let (Some(a), Some(b), Some((t, scale))) = (a, b, plain) {
            hits += 1;
            assert_eq!(a.t as i128 * b.scale as i128, b.t as i128 * a.scale as i128);
            assert_eq!(a.t as i128 * scale as i128, t as i128 * a.scale as i128);
            assert!(a.scale > 0 && a.t >= 0 && a.u >= 0 && a.v >= 0 && a.u + a.v <= a.scale);
            // The point of the ray is the point of the triangle.
            let mesh = &objects[a.mesh_index].mesh;
            let corner = |k: usize| mesh.vertices[mesh.indices[a.triangle_index + k] as usize].pos;
            let (c0, c1, c2) = (corner(0), corner(1), corner(2));
            let w0 = a.scale - a.u - a.v;
            assert_eq!(origin.x * a.scale + a.t * direction.x, w0 * c0.x + a.u * c1.x + a.v * c2.x);
            assert_eq!(origin.y * a.scale + a.t * direction.y, w0 * c0.y + a.u * c1.y + a.v * c2.y);
            assert_eq!(origin.z * a.scale + a.t * direction.z, w0 * c0.z + a.u * c1.z + a.v * c2.z);
        }
    }
    assert!(hits > 50, "only {} rays hit anything", hits);
}

#[test]
fn slab_test_agrees_with_a_search_for_a_point_in_the_box() {
    let mut seed: u64 = 77;
    let mut next = move |span: i64| {
        seed = seed.wrapping_mul(6364136223846793005).wrapping_add(1442695040888963407);
        ((seed >> 33) as i64).rem_euclid(2 * span + 1) - span
    };
    let mut met = 0;
    for _ in 0..4000 {
        let lower = Vector::vec3(next(8), next(8), next(8));
        let b = BoundingBox {
            lower,
            upper: Vector::vec3(lower.x + next(6).abs(), lower.y + next(6).abs(), lower.z + next(6).abs()),
        };
        let origin = Vector::vec3(next(10), next(10), next(10));
        let d = Vector::vec3(next(2), next(2), next(2));
        let sign = [(d.x < 0) as i8, (d.y < 0) as i8, (d.z < 0) as i8];
        let reported = b.intersect(origin, d, sign);
        // Every facet of the box that the line can cross lies at a
        // parameter (bound - origin) / d: one of those, or any parameter
        // for a line that does not move, is inside if anything is.
        let mut candidates: Vec<(i64, i64)> = vec![(0, 1)];
        for (lo, hi, o, dk) in [
            (b.lower.x, b.upper.x, origin.x, d.x),
            (b.lower.y, b.upper.y, origin.y, d.y),
            (b.lower.z, b.upper.z, origin.z, d.z),
        ] {
            if dk != 0 {
                for bound in [lo, hi] {
                    let (n, s) = if dk > 0 { (bound - o, dk) } else { (o - bound, -dk) };
                    candidates.push((n, s));
                }
            }
        }
        let inside = |t: (i64, i64)| {
            [(b.lower.x, b.upper.x, origin.x, d.x), (b.lower.y, b.upper.y, origin.y, d.y), (b.lower.z, b.upper.z, origin.z, d.z)]
                .iter()
                .all(|(lo, hi, o, dk)| lo * t.1 <= o * t.1 + t.0 * dk && o * t.1 + t.0 * dk <= hi * t.1)
        };
        let found = candidates.iter().any(|t| inside(*t));
        assert_eq!(reported, found, "box {:?} origin {:?} direction {:?}", b, origin, d);
        if reported {
            met += 1;
        }
    }
    assert!(met > 100 && met < 3900, "{} of 4000 rays met their box", met);
}
