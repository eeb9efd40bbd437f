//! Collision detection over exact integer coordinates: bounding boxes, a
//! dynamic bounding-volume tree with its broad phase, and the proximity of
//! simple shapes.

pub mod bounding_volume;
pub mod broad_phase;
pub mod geom_with_margin;
pub mod implicit;
pub mod math;
pub mod pairs;
pub mod partitioning;
pub mod procedural;
pub mod proximity;
pub mod shape;
