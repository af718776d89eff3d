//! Shapes, their bounding boxes and the hierarchy built over them.
pub mod bbox;
pub mod box_laws;
pub mod bvh;
pub mod cuboid;
pub mod instance;
pub mod laws;
pub mod mesh;
pub mod plane_laws;
pub mod quad;
pub mod same_hit;
pub mod shape;
pub mod sort;
pub mod sphere;
pub mod sphere_laws;
pub mod triangle;

pub use bbox::BBox;
pub use bvh::{BVHNode, BVH};
pub use cuboid::Cuboid;
pub use instance::Instance;
pub use mesh::Mesh;
pub use quad::Quad;
pub use shape::Shape;
pub use sphere::Sphere;
pub use triangle::Triangle;
