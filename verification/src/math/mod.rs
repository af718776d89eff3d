//! Vectors, rays, affine maps and coordinate frames.
pub mod angle;
pub mod coordinate_system;
pub mod ray;
pub mod transform;
pub mod vector;

pub use coordinate_system::{create_coordinate_system, CoordinateSystem};
pub use ray::Ray;
pub use transform::{Rotation3, Transform};
pub use vector::{Color, P3, V3};
