//! A Monte-Carlo path tracer core over fixed-point arithmetic.
//!
//! Geometry, materials and the radiance estimator work on scalars that are
//! signed 64-bit integers scaled by `fx::SCALE`, so every operation has an
//! exact mathematical meaning that the contracts can state over `int`.

pub mod aabb;
pub mod camera;
pub mod fx;
pub mod hittable;
pub mod interval;
pub mod material;
pub mod ray;
pub mod sampler;
pub mod sphere;
pub mod utils;
pub mod vec3;

pub use fx::SCALE;
