//! A path-tracing core in fixed-point integer arithmetic.
//!
//! Scalars are `i64` values on a fixed-point scale: one world unit is
//! `S_ONE` for positions, colors and ray parameters, and `T_ONE` for
//! direction vectors and surface normals. All geometry is exact integer
//! arithmetic, so every operation carries a precise contract; in particular
//! the ray-box and ray-sphere intersections are decided exactly, by
//! comparing discriminants with squares instead of taking square roots.
//!
//! The pieces, bottom up: [`arith`] (floor division, integer square root,
//! square-root comparisons), [`vec3`] (vector algebra), [`aabb`] (intervals,
//! boxes and the ray-slab test), [`ray`], [`sphere`] and [`moving_sphere`]
//! (the primitives), [`hit`] (hit records, the object sum type, the flat
//! aggregate), [`bvh`] (the bounding volume hierarchy), [`material`] and
//! [`texture`] (the scattering rules), [`camera`], [`render`] (the radiance
//! estimator and pixel sampling) and [`scene`] (the demonstration scenes).
//! Randomness enters through a single trusted draw in [`rng`].

pub mod aabb;
pub mod arith;
pub mod bvh;
pub mod camera;
pub mod hit;
pub mod material;
pub mod moving_sphere;
pub mod ray;
pub mod render;
pub mod rng;
pub mod scene;
pub mod sphere;
pub mod vec3;
pub mod texture;
pub mod utils;

use vstd::prelude::*;

verus! {

/// Fixed-point scale of positions, colors and ray parameters: the value
/// standing for one world unit (or for a color channel at full intensity).
pub const S_ONE: i64 = 65536;

/// Fixed-point scale of direction vectors and surface normals: a direction
/// of world length one has magnitude close to `T_ONE`.
pub const T_ONE: i64 = 1024;

/// Bound on the components of a ray origin.
pub const ORG_LIMIT: i64 = 0x2_0000_0000;

/// Bound on the components of a ray direction.
pub const DIR_LIMIT: i64 = 0x8000;

/// Bound on the magnitude of ray parameters and time values.
pub const T_LIMIT: i64 = 0x4000_0000;

/// Bound on the components of sphere centers and on radii.
pub const CEN_LIMIT: i64 = 0x1_0000_0000;

/// Bound on the components of bounding-box corners.
pub const BOX_LIMIT: i64 = 0x10_0000_0000;

/// Bound on the per-time-unit motion of a moving sphere, on the `S_ONE`
/// scale: how far a center may travel while the time advances by `S_ONE`.
pub const VEL_LIMIT: i64 = 0x8_0000;

} // verus!
