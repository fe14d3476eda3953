//! A stochastic ray tracer for scenes of spheres, written over fixed-point
//! arithmetic so that every geometric and radiometric step carries a proved
//! contract.
//!
//! Scalars are `i64` values carrying [`fixed::SCALE`] fraction steps per
//! whole unit. The camera turns plate coordinates into world-space rays,
//! spheres answer ray intersections by the quadratic discriminant, materials
//! scatter rays (diffuse, metal, dielectric), and the render driver averages
//! jittered samples per pixel into 8-bit color channels.

pub mod camera;
pub mod color;
pub mod fixed;
pub mod hitrecord;
pub mod item;
pub mod material;
pub mod ray;
pub mod render;
pub mod rng;
pub mod scene;
pub mod vec3;
