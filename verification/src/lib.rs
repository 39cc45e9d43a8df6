//! A stochastic ray-tracing kernel verified with Verus.
//!
//! Geometry and color run on an exact scaled-integer arithmetic: a scalar
//! holds its real value times `SCALE`, and every operation states precisely
//! which integer it returns.  Randomness is injected through a single trusted
//! wrapper over the `rand` crate; image output and parallel scheduling live
//! outside the library.

pub mod camera;
pub mod fx;
pub mod hittable;
pub mod laws;
pub mod hittable_list;
pub mod material;
pub mod plane;
pub mod ray;
pub mod render;
pub mod rng;
pub mod scenes;
pub mod sphere;
pub mod vec3;

