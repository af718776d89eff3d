//! The scene: what a render reads.
use crate::camera::Camera;
use crate::geometry::bvh::{Axis, BVH};
use crate::geometry::shape::Shape;
use crate::geometry::sort::all_wf;
use crate::math::vector::Color;
use std::sync::Arc;
use vstd::prelude::*;

verus! {

/// A camera, the shapes under their hierarchy, the colour of the
/// background, how often a path may bounce and the size of the image.
#[derive(Debug)]
pub struct Scene {
    pub camera: Camera,
    pub bvh: BVH,
    pub background_color: Color,
    pub recursion_depth: u16,
    pub image_width: u32,
    pub image_height: u32,
}

impl Scene {
    /// Camera and hierarchy are well formed, and the camera's image is the
    /// scene's.
    pub open spec fn wf(&self) -> bool {
        &&& self.camera.wf()
        &&& self.bvh.wf()
        &&& self.background_color.wf()
        &&& self.camera.base().pixels_x == self.image_width
        &&& self.camera.base().pixels_y == self.image_height
    }

    /// The scene holds no shape.
    pub open spec fn is_empty(&self) -> bool {
        self.bvh.root.shapes_in_order().len() == 0
    }

    /// The scene of `shapes` seen through `camera`, which is set to the
    /// size of the image.
    pub fn new(
        camera: Camera,
        shapes: Vec<Arc<Shape>>,
        background_color: Color,
        recursion_depth: u16,
        image_width: u32,
        image_height: u32,
    ) -> (scene: Scene)
        requires
            camera.spec_with_pixels(image_width, image_height).wf(),
            all_wf(shapes@),
            background_color.wf(),
        ensures
            scene.wf(),
            scene.camera == camera.spec_with_pixels(image_width, image_height),
            scene.bvh.root.is_built_from(shapes@, Axis::X),
            scene.bvh.root.shapes_in_order().to_multiset() =~= shapes@.to_multiset(),
            shapes@.len() == 0 ==> scene.is_empty(),
            scene.background_color == background_color,
            scene.recursion_depth == recursion_depth,
            scene.image_width == image_width,
            scene.image_height == image_height,
    {
        let mut camera = camera;
        camera.set_image_pixels(image_width, image_height);
        let ghost given = shapes@;
        let bvh = BVH::new(shapes);
        proof {
            given.to_multiset_ensures();
            bvh.root.shapes_in_order().to_multiset_ensures();
        }
        Scene { camera, bvh, background_color, recursion_depth, image_width, image_height }
    }
}

} // verus!
