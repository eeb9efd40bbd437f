//! The index buffers of meshes that are made of circles of points.

pub mod cone;
pub mod cylinder;
pub mod sphere;
pub mod utils;
