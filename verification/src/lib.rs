//! A path-tracing core verified with Verus.
//!
//! Scene geometry, materials, textures, procedural noise, the bounding-volume
//! hierarchy and the recursive integrator all operate on fixed-point scalars
//! (`i64` values counting 1/65536ths), which gives every computation an exact
//! integer meaning that the contracts pin down.

pub mod aabb;
pub mod bvh;
pub mod camera;
pub mod fixed;
pub mod hittable;
pub mod laws;
pub mod material;
pub mod perlin;
pub mod ray;
pub mod rect;
pub mod render;
pub mod rng;
pub mod sphere;
pub mod texture;
pub mod trig;
pub mod vec3;
