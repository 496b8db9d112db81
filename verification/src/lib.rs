//! An offline Monte-Carlo path tracer over fixed-point arithmetic: a scene
//! of spheres with diffuse, mirror, refractive and debug materials, a camera
//! with an orthonormal basis, and a bounded path-tracing integrator that
//! renders a frame (or any sub-rectangle of it) into an 8-bit image.
//!
//! All scalars are fixed-point `i64` values in millionths (`vec3::UNIT` is
//! one), so every geometric computation is exact integer arithmetic with
//! stated rounding, and the intersection decision itself carries no rounding
//! at all. Randomness comes from per-pixel generators seeded from a render
//! seed and the pixel's absolute position, which keeps disjoint region
//! renders exactly composable into the full frame.

pub mod camera;
pub mod cimage;
pub mod colour;
pub mod debugon;
pub mod dialectic;
pub mod hit;
pub mod image;
pub mod lambertian;
pub mod material;
pub mod metal;
pub mod num;
pub mod ray;
pub mod rng;
pub mod scene;
pub mod sphere;
pub mod trig;
pub mod vec3;

use vstd::prelude::*;

verus! {

/// Scalars throughout the crate are fixed-point numbers: an `i64` stores
/// millionths, so `vec3::UNIT` (1 000 000) represents the real number 1.
/// `WorldVec` is the vector type used for points and directions in the scene.
pub type WorldVec = vec3::Vec3<i64>;

} // verus!
