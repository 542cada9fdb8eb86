//! A Monte Carlo path tracer over spherical primitives.
//!
//! All geometry, color and sampling arithmetic is carried out in 16.16
//! fixed-point form: a quantity `q` is represented by the `i64` value
//! `q * 65536`, saturated to the range `[-FX_MAX, FX_MAX]`. The `fixed`
//! module defines the arithmetic and its exact specification; every other
//! module states its contracts as equalities against spec-level mirrors of
//! that arithmetic.

pub use fixed::FX_MAX;
pub use fixed::FX_ONE;

pub mod camera;
pub mod color;
pub mod fixed;
pub mod material;
pub mod objects;
pub mod ray;
mod rng;
pub mod raytracer;
pub mod vec3;

pub use camera::Camera;
pub use material::Material;
pub use raytracer::{render, ray_color, ImageConfig};
pub use objects::{Hit, Hittable, Hittables, MovingSphere, Sphere};
pub use ray::Ray;
pub use rng::Prng;
pub use vec3::Vec3;

