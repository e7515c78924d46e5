//! A brute-force ray tracer over spheres, computed in fixed-point arithmetic.
//!
//! Every real quantity (coordinates, directions, colors, ray parameters) is held
//! as an `i64` count of `1 / SCALE` units, so that each step of the renderer has
//! an exact meaning that the contracts can state.
use vstd::prelude::*;

pub mod fixed;
pub mod vec3;
pub mod ray;
pub mod material;
pub mod shapes;
pub mod sampling;
pub mod render;
pub mod camera;
pub mod checks;
