//! The geometry of a path tracer, exact and verified.
//!
//! A scene is a list of triangle meshes on an integer lattice: one lattice
//! unit is the smallest length the scene distinguishes, and no coordinate
//! is larger than [`vector::COORD_MAX`]. On the lattice every question this
//! library answers has an exact answer in whole numbers and fractions of
//! whole numbers, and every answer is proved.
//!
//! - [`vector`] and [`geometry`] hold lattice vectors, meshes and axis
//!   aligned boxes. [`geometry::BoundingBox::intersect`] is the slab test:
//!   it reports a hit exactly when the line of the ray meets the box.
//! - [`builder::build_bvh`] builds a bounding volume hierarchy over the
//!   boxes of the objects and writes it into a flat, depth first array.
//!   Ranges of up to four objects are split at the median, longer ones by
//!   the estimate of the traversal cost in [`sah`]; [`records`] holds what
//!   the build keeps per object. [`bvh`] says what the array looks like:
//!   it obeys [`bvh::layout`], its leaves partition an order of the objects
//!   that names every object once, and the box of every node is the join of
//!   the boxes below it.
//! - [`ray_tracer::trace`] walks that array with a stack and returns the
//!   nearest triangle that a ray hits before a given limit;
//!   [`ray_tracer::intersect_triangle`] is the intersection of a ray and a
//!   triangle, without rounding. [`hit_point`] proves that the reported
//!   point of the ray is the reported point of the triangle, and
//!   [`nearest`] that the reported hit is the nearest among all triangles
//!   of the scene, whatever the hierarchy looks like.
//! - [`scene`] puts objects, hierarchy and ray queries together.
//! - [`shading`] decides how many rays a hit sends on, so that the depth
//!   of a path never passes its limit, and [`math`] holds the clamp.
//!
//! Light itself, with its square roots and random samples, is floating
//! point work and lives with the program that renders.

pub mod builder;
pub mod bvh;
pub mod geometry;
pub mod hit_point;
pub mod math;
pub mod nearest;
pub mod ray_tracer;
pub mod records;
pub mod sah;
pub mod scene;
pub mod shading;
pub mod vector;

pub use ray_tracer::{RenderSettings, Stats};
