use path_tracer::ray_tracer::{RayType, RenderSettings};
use path_tracer::shading::{
    diffuse_sample_count, indirect_enabled, integer_sqrt, light_sample_count, may_follow,
    plan_direct, plan_indirect, specular_sample_count, DirectPlan, LightShape,
};
use path_tracer::vector::Vector;

fn settings(depth: u32, diffuse: u32, specular: u32) -> RenderSettings {
    RenderSettings::new(1280, 720, depth, diffuse, specular, 7, Vector::vec3(219, 235, 255))
}

#[test]
fn render_settings_keep_their_values() {
    let s = settings(2, 4, 3);
    assert_eq!((s.width, s.height, s.max_ray_depth), (1280, 720, 2));
    assert_eq!((s.diffuse_samples, s.specular_samples, s.aa_samples), (4, 3, 7));
    assert_eq!(s.background_color, Vector::vec3(219, 235, 255));
}

#[test]
fn integer_sqrt_rounds_down() {
    assert_eq!(integer_sqrt(0), 0);
    assert_eq!(integer_sqrt(1), 1);
    assert_eq!(integer_sqrt(3), 1);
    assert_eq!(integer_sqrt(4), 2);
    assert_eq!(integer_sqrt(15), 3);
    assert_eq!(integer_sqrt(16), 4);
    assert_eq!(integer_sqrt(1_000_000), 1000);
    assert_eq!(integer_sqrt(u32::MAX), 65535);
}

#[test]
fn depth_zero_limit_gives_no_indirect_rays() {
    let s = settings(0, 16, 16);
    for depth in 0..4 {
        for ray in [RayType::CameraRay, RayType::SpecularRay, RayType::DiffuseRay, RayType::ShadowRay] {
            let plan = plan_indirect(depth, s, ray, false);
            assert_eq!(plan.diffuse_samples, 0);
            assert_eq!(plan.specular_samples, 0);
            assert!(!indirect_enabled(depth, s));
        }
    }
}

#[test]
fn indirect_light_stops_at_the_depth_limit() {
    let s = settings(2, 4, 4);
    assert!(indirect_enabled(0, s));
    assert!(indirect_enabled(1, s));
    assert!(!indirect_enabled(2, s));
    assert!(!indirect_enabled(3, s));
    assert_eq!(diffuse_sample_count(2, s, false), 0);
    assert_eq!(specular_sample_count(2, s, RayType::CameraRay), 0);
}

#[test]
fn first_hit_takes_all_diffuse_samples_and_deeper_hits_the_root() {
    let s = settings(3, 16, 4);
    assert_eq!(diffuse_sample_count(0, s, false), 16);
    assert_eq!(diffuse_sample_count(1, s, false), 4);
    assert_eq!(diffuse_sample_count(2, s, false), 4);
    let odd = settings(3, 10, 4);
    assert_eq!(diffuse_sample_count(1, odd, false), 3);
}

#[test]
fn metallic_surfaces_send_no_diffuse_rays() {
    let s = settings(3, 16, 4);
    assert_eq!(diffuse_sample_count(0, s, true), 0);
    assert_eq!(plan_indirect(0, s, RayType::CameraRay, true).specular_samples, 4);
}

#[test]
fn specular_rays_follow_camera_and_specular_rays_only() {
    let s = settings(3, 16, 4);
    assert_eq!(specular_sample_count(0, s, RayType::CameraRay), 4);
    assert_eq!(specular_sample_count(1, s, RayType::SpecularRay), 1);
    assert_eq!(specular_sample_count(1, s, RayType::DiffuseRay), 0);
    assert_eq!(specular_sample_count(1, s, RayType::ShadowRay), 0);
    let none = settings(3, 16, 0);
    assert_eq!(specular_sample_count(0, none, RayType::CameraRay), 0);
}

#[test]
fn area_lights_are_sampled_once_off_the_camera_path() {
    assert_eq!(light_sample_count(RayType::CameraRay, 9), 9);
    assert_eq!(light_sample_count(RayType::DiffuseRay, 9), 1);
    assert_eq!(light_sample_count(RayType::SpecularRay, 9), 1);
    assert_eq!(light_sample_count(RayType::ShadowRay, 9), 1);
}

#[test]
fn ray_kinds_follow_each_other() {
    let all = [RayType::CameraRay, RayType::ShadowRay, RayType::SpecularRay, RayType::DiffuseRay];
    for child in all {
        assert!(!may_follow(RayType::ShadowRay, child));
        assert_eq!(may_follow(RayType::CameraRay, child), child != RayType::CameraRay);
        assert_eq!(may_follow(RayType::SpecularRay, child), child != RayType::CameraRay);
    }
    assert!(may_follow(RayType::DiffuseRay, RayType::DiffuseRay));
    assert!(may_follow(RayType::DiffuseRay, RayType::ShadowRay));
    assert!(!may_follow(RayType::DiffuseRay, RayType::SpecularRay));
    assert!(!may_follow(RayType::DiffuseRay, RayType::CameraRay));
}

#[test]
fn lights_without_area_take_one_sample_one_way() {
    for ray in [RayType::CameraRay, RayType::DiffuseRay] {
        assert_eq!(
            plan_direct(LightShape::Directional, 9, ray),
            DirectPlan { samples: 1, strategies: 1, bounded: false }
        );
        assert_eq!(
            plan_direct(LightShape::Point, 9, ray),
            DirectPlan { samples: 1, strategies: 1, bounded: true }
        );
    }
}

#[test]
fn lights_with_area_are_sampled_two_ways() {
    for shape in [LightShape::Sphere, LightShape::Rectangle] {
        assert_eq!(
            plan_direct(shape, 9, RayType::CameraRay),
            DirectPlan { samples: 9, strategies: 2, bounded: true }
        );
        for ray in [RayType::ShadowRay, RayType::SpecularRay, RayType::DiffuseRay] {
            assert_eq!(plan_direct(shape, 9, ray), DirectPlan { samples: 1, strategies: 2, bounded: true });
        }
        assert_eq!(plan_direct(shape, 0, RayType::CameraRay).samples, 0);
    }
}
