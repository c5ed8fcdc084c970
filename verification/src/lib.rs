//! Linear-algebra primitives for a 3D rendering pipeline: vectors, points,
//! colors, fixed-dimension matrices, and homogeneous-coordinate transforms.
//!
//! Scalars are exact rationals held in machine words, so every algebraic
//! identity stated here is exact rather than approximate.

pub mod rat;
pub mod canvas;
pub mod color;
pub mod matrix;
pub mod point;
pub mod transformations;
pub mod vec3;
