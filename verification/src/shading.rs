use crate::ray_tracer::{RayType, RenderSettings};
use vstd::prelude::*;

verus! {

/// The whole part of the square root of `n`.
pub open spec fn is_root_of(root: int, n: int) -> bool {
    0 <= root && root * root <= n < (root + 1) * (root + 1)
}

/// The square of a number between two others lies between their squares.
pub proof fn lemma_square_is_monotonic(a: int, b: int)
    by (nonlinear_arith)
    requires
        0 <= a <= b,
    ensures
        a * a <= b * b,
{
}

/// The whole part of the square root of `n`.
pub fn integer_sqrt(n: u32) -> (root: u32)
    ensures
        is_root_of(root as int, n as int),
{
    let mut low: u64 = 0;
    let mut high: u64 = 65536;
    while high - low > 1
        invariant
            low < high <= 65536,
            low * low <= n < high * high,
        decreases high - low,
    {
        let middle: u64 = low + (high - low) / 2;
        proof {
            lemma_square_is_monotonic(middle as int, 65536);
        }
        if middle * middle <= n as u64 {
            low = middle;
        } else {
            high = middle;
        }
    }
    low as u32
}

/// How many rays one bounce sends out to gather indirect light.
#[derive(Clone, Copy, Debug, PartialEq, Eq, Structural)]
pub struct IndirectPlan {
    pub diffuse_samples: u32,
    pub specular_samples: u32,
}

/// Whether a hit at depth `current_ray_depth` gathers indirect light at
/// all: only below the depth limit.
pub open spec fn gathers_indirect(current_ray_depth: u32, settings: RenderSettings) -> bool {
    current_ray_depth < settings.max_ray_depth
}

/// The number of diffuse rays of a bounce: none for a fully metallic
/// surface or past the depth limit, all the configured ones at the first
/// hit, the root of their number at deeper hits.
pub open spec fn diffuse_rays(
    current_ray_depth: u32,
    settings: RenderSettings,
    metallic: bool,
    count: int,
) -> bool {
    if !gathers_indirect(current_ray_depth, settings) || metallic || settings.diffuse_samples == 0 {
        count == 0
    } else if current_ray_depth == 0 {
        count == settings.diffuse_samples
    } else {
        is_root_of(count, settings.diffuse_samples as int)
    }
}

/// The number of specular rays of a bounce: none past the depth limit or
/// after a diffuse or shadow ray, all the configured ones at the first hit,
/// one at deeper hits.
pub open spec fn specular_rays(
    current_ray_depth: u32,
    settings: RenderSettings,
    ray_type: RayType,
) -> int {
    if !gathers_indirect(current_ray_depth, settings) || settings.specular_samples == 0 || !(
    ray_type == RayType::CameraRay || ray_type == RayType::SpecularRay) {
        0
    } else if current_ray_depth == 0 {
        settings.specular_samples as int
    } else {
        1
    }
}

/// Whether a hit at this depth gathers indirect light.
pub fn indirect_enabled(current_ray_depth: u32, settings: RenderSettings) -> (enabled: bool)
    ensures
        enabled == gathers_indirect(current_ray_depth, settings),
{
    current_ray_depth < settings.max_ray_depth
}

/// The number of diffuse rays that a hit sends out.
pub fn diffuse_sample_count(
    current_ray_depth: u32,
    settings: RenderSettings,
    metallic: bool,
) -> (count: u32)
    ensures
        diffuse_rays(current_ray_depth, settings, metallic, count as int),
{
    if !indirect_enabled(current_ray_depth, settings) || metallic || settings.diffuse_samples == 0 {
        0
    } else if current_ray_depth > 0 {
        integer_sqrt(settings.diffuse_samples)
    } else {
        settings.diffuse_samples
    }
}

/// The number of specular rays that a hit sends out.
pub fn specular_sample_count(
    current_ray_depth: u32,
    settings: RenderSettings,
    ray_type: RayType,
) -> (count: u32)
    ensures
        count == specular_rays(current_ray_depth, settings, ray_type),
{
    if !indirect_enabled(current_ray_depth, settings) || settings.specular_samples == 0 {
        return 0;
    }
    match ray_type {
        RayType::CameraRay | RayType::SpecularRay => {
            if current_ray_depth > 0 {
                1
            } else {
                settings.specular_samples
            }
        },
        RayType::ShadowRay | RayType::DiffuseRay => 0,
    }
}

/// The rays that a hit sends out to gather indirect light.
pub fn plan_indirect(
    current_ray_depth: u32,
    settings: RenderSettings,
    ray_type: RayType,
    metallic: bool,
) -> (plan: IndirectPlan)
    ensures
        diffuse_rays(current_ray_depth, settings, metallic, plan.diffuse_samples as int),
        plan.specular_samples == specular_rays(current_ray_depth, settings, ray_type),
{
    IndirectPlan {
        diffuse_samples: diffuse_sample_count(current_ray_depth, settings, metallic),
        specular_samples: specular_sample_count(current_ray_depth, settings, ray_type),
    }
}

/// The number of samples taken of a light with an area: all of the light's
/// own for a camera ray, one for every other ray.
pub fn light_sample_count(ray_type: RayType, samples: u32) -> (count: u32)
    ensures
        count == (if ray_type == RayType::CameraRay { samples } else { 1 }),
{
    if ray_type != RayType::CameraRay {
        1
    } else {
        samples
    }
}

/// The shape of a light, as far as it decides how the light is sampled.
#[derive(Clone, Copy, Debug, PartialEq, Eq, Structural)]
pub enum LightShape {
    /// Light from one direction, from infinitely far away.
    Directional,
    /// A sphere without radius.
    Point,
    /// A sphere with a radius.
    Sphere,
    /// A rectangle.
    Rectangle,
}

/// How the direct light of one light is gathered at a hit.
#[derive(Clone, Copy, Debug, PartialEq, Eq, Structural)]
pub struct DirectPlan {
    /// The number of samples taken of the light.
    pub samples: u32,
    /// The number of ways in which every sample is drawn: one way for
    /// lights without area; two ways, combined by their densities, for
    /// lights with area: a point of the light and a direction of the
    /// reflection lobe.
    pub strategies: u32,
    /// Whether shadow rays end at the light. Those towards a directional
    /// light go on without end.
    pub bounded: bool,
}

/// The plan for a light of shape `shape` that asks for `samples` samples,
/// at a hit made by a ray of kind `ray_type`.
pub open spec fn direct_plan(shape: LightShape, samples: u32, ray_type: RayType) -> DirectPlan {
    match shape {
        LightShape::Directional => DirectPlan { samples: 1, strategies: 1, bounded: false },
        LightShape::Point => DirectPlan { samples: 1, strategies: 1, bounded: true },
        LightShape::Sphere | LightShape::Rectangle => DirectPlan {
            samples: if ray_type == RayType::CameraRay { samples } else { 1 },
            strategies: 2,
            bounded: true,
        },
    }
}

/// Decides how the direct light of one light is gathered.
pub fn plan_direct(shape: LightShape, samples: u32, ray_type: RayType) -> (plan: DirectPlan)
    ensures
        plan == direct_plan(shape, samples, ray_type),
{
    match shape {
        LightShape::Directional => DirectPlan { samples: 1, strategies: 1, bounded: false },
        LightShape::Point => DirectPlan { samples: 1, strategies: 1, bounded: true },
        LightShape::Sphere | LightShape::Rectangle => DirectPlan {
            samples: light_sample_count(ray_type, samples),
            strategies: 2,
            bounded: true,
        },
    }
}

/// The kind of ray that a hit may send on, by the kind of ray that made
/// the hit. A shadow ray ends where it hits; a ray after a diffuse bounce
/// sends no specular rays.
pub open spec fn follows(parent: RayType, child: RayType) -> bool {
    match parent {
        RayType::ShadowRay => false,
        RayType::DiffuseRay => child == RayType::ShadowRay || child == RayType::DiffuseRay,
        RayType::CameraRay | RayType::SpecularRay => child != RayType::CameraRay,
    }
}

/// Whether a hit made by a ray of kind `parent` may send on a ray of kind
/// `child`.
pub fn may_follow(parent: RayType, child: RayType) -> (allowed: bool)
    ensures
        allowed == follows(parent, child),
{
    match parent {
        RayType::ShadowRay => false,
        RayType::DiffuseRay => match child {
            RayType::ShadowRay | RayType::DiffuseRay => true,
            RayType::CameraRay | RayType::SpecularRay => false,
        },
        RayType::CameraRay | RayType::SpecularRay => match child {
            RayType::CameraRay => false,
            RayType::ShadowRay | RayType::SpecularRay | RayType::DiffuseRay => true,
        },
    }
}

/// With a depth limit of zero no hit, at whatever depth, sends out a ray
/// for indirect light: what is left is the direct light alone.
pub proof fn lemma_no_indirect_light_without_depth(
    current_ray_depth: u32,
    settings: RenderSettings,
    ray_type: RayType,
    metallic: bool,
    diffuse: int,
)
    requires
        settings.max_ray_depth == 0,
        diffuse_rays(current_ray_depth, settings, metallic, diffuse),
    ensures
        !gathers_indirect(current_ray_depth, settings),
        diffuse == 0,
        specular_rays(current_ray_depth, settings, ray_type) == 0,
{
}

/// A ray for indirect light is only sent from a hit below the depth limit,
/// so its own depth, one more, never passes the limit.
pub proof fn lemma_indirect_rays_stay_within_depth(
    current_ray_depth: u32,
    settings: RenderSettings,
    ray_type: RayType,
    metallic: bool,
    diffuse: int,
)
    requires
        diffuse_rays(current_ray_depth, settings, metallic, diffuse),
        diffuse > 0 || specular_rays(current_ray_depth, settings, ray_type) > 0,
    ensures
        current_ray_depth + 1 <= settings.max_ray_depth,
{
}

} // verus!
