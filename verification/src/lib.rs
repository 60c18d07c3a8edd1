//! A path-tracing core whose geometry, acceleration structure, materials,
//! camera model and streaming output synchronizer are verified.
//!
//! All scalar quantities (coordinates, radii, colors, ray parameters) are
//! fixed-point numbers: an `i64` holding the real value scaled by `SCALE`.
//! Ray/slab and ray/sphere intersection decisions are made in exact rational
//! arithmetic, which is what makes the acceleration structure provably
//! consistent with the brute-force scan.

pub mod aabb;
pub mod bvh_node;
pub mod camera;
pub mod config;
pub mod color;
pub mod coordinate_iterator;
pub mod fx;
pub mod hittable;
pub mod material;
pub mod rat;
pub mod moving_sphere;
pub mod perlin_noise;
pub mod random;
pub mod rendering;
pub mod scene;
pub mod scene_building;
pub mod ray;
pub mod sphere;
pub mod texture;
pub mod vec3;
pub mod writing;

pub use fx::SCALE;
