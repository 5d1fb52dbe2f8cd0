//! A small Monte Carlo path tracer: spheres with diffuse, metal and
//! dielectric materials, a movable camera, and a tile-parallel renderer
//! writing gamma-corrected 8-bit RGBA.
//!
//! Scalars are signed 16.16 fixed-point numbers carried in `i128`: the
//! raw integer `r` stands for the real number `r / 65536`. Every
//! arithmetic step is then an exact integer function, so contracts can
//! state each result precisely.

pub mod camera;
pub mod fixed;
pub mod hittable;
pub mod material;
pub mod ppm;
pub mod ray;
pub mod renderer;
mod sampling;
pub mod sphere;
pub mod vec3;

pub use fixed::SCALE;
pub use vec3::{Vec3, Point, Color};
