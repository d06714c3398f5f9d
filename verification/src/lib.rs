//! A small ray tracer whose arithmetic is carried out in binary fixed point.
//!
//! Scalars are `i128` values scaled by `fixed::SCALE`; every operation of the
//! vector kernel, the geometry and the light-transport estimator has an exact
//! contract over that representation.

pub mod camera;
pub mod color;
pub mod fixed;
pub mod rgb;
pub mod material;
pub mod ray;
pub mod render;
pub mod renderable;
pub mod rng;
pub mod vector;
