//! A recursive ray tracer with a verified intersection and shading pipeline.
//!
//! All scalars are fixed-point numbers: an `i128` holding `value * ONE`,
//! where `ONE = 65536`.  Every arithmetic step is specified exactly, with
//! truncated (round-toward-zero) division standing where the usual
//! floating-point implementation would round.

pub mod fixed;
pub mod geometry;
pub mod intersection;
pub mod matrix;
pub mod ray;
pub mod scene;
pub mod transform;
pub mod vec3;
pub mod vec4;
