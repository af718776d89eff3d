//! Cameras: from a pixel and an offset in it to a ray.
pub mod orthographic;
pub mod perspective;

use crate::math::coordinate_system::CoordinateSystem;
use crate::math::ray::Ray;
use crate::math::vector::{thread_rng, P3, V3};
use crate::sampling::{is_disk_sample, random_in_unit_disk};
use crate::scalar::{
    floor_div_wide, in_range, lemma_quotient_bound, mul_wide, real_div, saturate, saturate_wide,
    spec_div, Real, ONE, ONE_WIDE,
};
use vstd::prelude::*;

pub use orthographic::OrthographicCamera;
pub use perspective::PerspectiveCamera;

verus! {

/// The width of the image plane: a half.
pub const DEFAULT_IMAGE_PLANE_WIDTH: Real = 0x8_0000;

/// What all cameras share: where they stand and look, the size of the image
/// in pixels and the edges of the image plane.
#[derive(Debug)]
pub struct CameraBase {
    pub basis: CoordinateSystem,
    pub pixels_x: u32,
    pub pixels_y: u32,
    pub left: Real,
    pub right: Real,
    pub top: Real,
    pub bottom: Real,
}

#[derive(Debug)]
pub enum Camera {
    Perspective(PerspectiveCamera),
    Orthographic(OrthographicCamera),
}

/// Where a camera looks: along a direction or at a point.
#[derive(Debug)]
pub enum CameraOrientation {
    ViewDir { view_dir: V3 },
    LookAtPoint { lookat_point: V3 },
}

/// The point between `lo` and `hi` at the fraction `(index + offset) /
/// count` of the way, rounded down.
pub open spec fn spec_plane_coordinate(
    lo: Real,
    hi: Real,
    index: u32,
    offset: Real,
    count: u32,
) -> Real {
    saturate(lo + ((hi - lo) * (index * ONE + offset)) / (count * ONE)) as Real
}

/// The point between `lo` and `hi` at the fraction `(index + offset) /
/// count` of the way.
fn plane_coordinate(lo: Real, hi: Real, index: u32, offset: Real, count: u32) -> (r: Real)
    requires
        in_range(lo as int),
        in_range(hi as int),
        in_range(offset as int),
        count > 0,
    ensures
        r == spec_plane_coordinate(lo, hi, index, offset, count),
        in_range(r as int),
{
    let span: i128 = hi as i128 - lo as i128;
    let place: i128 = (index as i128) * ONE_WIDE + (offset as i128);
    let product: i128 = mul_wide(span, place, Ghost(0x8000_0000), Ghost(0x20_0000_0000_0000));
    let scaled: i128 = floor_div_wide(product, (count as i128) * ONE_WIDE);
    proof {
        lemma_quotient_bound(
            product as int,
            count * 0x10_0000,
            0x8000_0000int * 0x20_0000_0000_0000int,
        );
    }
    saturate_wide(lo as i128 + scaled)
}

impl CameraOrientation {
    /// The direction in which a camera at `position` looks.
    pub open spec fn spec_view_direction(self, position: P3) -> V3 {
        match self {
            CameraOrientation::ViewDir { view_dir } => view_dir,
            CameraOrientation::LookAtPoint { lookat_point } => lookat_point.spec_minus(position),
        }
    }

    /// The direction in which a camera at `position` looks.
    pub fn get_view_direction(&self, position: P3) -> (d: V3)
        ensures
            d == self.spec_view_direction(position),
    {
        match self {
            CameraOrientation::ViewDir { view_dir } => *view_dir,
            CameraOrientation::LookAtPoint { lookat_point } => lookat_point.minus(&position),
        }
    }
}

impl CameraBase {
    /// The frame and the edges of the image plane lie within the
    /// saturation bounds, and the image has pixels.
    pub open spec fn wf(self) -> bool {
        &&& self.basis.wf()
        &&& self.pixels_x > 0
        &&& self.pixels_y > 0
        &&& in_range(self.left as int)
        &&& in_range(self.right as int)
        &&& in_range(self.top as int)
        &&& in_range(self.bottom as int)
    }

    /// The base of a camera at `position` that looks along
    /// `view_direction`, over an image plane half a unit wide and as high
    /// as `aspect_ratio` makes it, with no pixels yet.
    pub open spec fn spec_new(position: P3, view_direction: V3, aspect_ratio: Real) -> CameraBase {
        let height = spec_div(DEFAULT_IMAGE_PLANE_WIDTH, aspect_ratio);
        CameraBase {
            basis: CoordinateSystem::spec_new(position, view_direction),
            pixels_x: 0,
            pixels_y: 0,
            left: (-DEFAULT_IMAGE_PLANE_WIDTH / 2) as Real,
            right: (DEFAULT_IMAGE_PLANE_WIDTH / 2) as Real,
            top: (height / 2) as Real,
            bottom: ((-height) / 2) as Real,
        }
    }

    /// The point of the image plane that the offset `(di, dj)` in pixel
    /// `(i, j)` stands for.
    pub open spec fn spec_uv(self, i: u32, j: u32, di: Real, dj: Real) -> (Real, Real) {
        (
            spec_plane_coordinate(self.left, self.right, i, di, self.pixels_x),
            spec_plane_coordinate(self.bottom, self.top, j, dj, self.pixels_y),
        )
    }

    pub fn new(position: P3, view_direction: &V3, aspect_ratio: Real) -> (c: CameraBase)
        requires
            position.wf(),
            view_direction.wf(),
        ensures
            c == CameraBase::spec_new(position, *view_direction, aspect_ratio),
            c.basis.wf(),
    {
        let image_plane_width = DEFAULT_IMAGE_PLANE_WIDTH;
        let image_plane_height = real_div(image_plane_width, aspect_ratio);
        CameraBase {
            basis: CoordinateSystem::new(position, view_direction),
            pixels_x: 0,
            pixels_y: 0,
            left: floor_div_wide(-(image_plane_width as i128), 2) as i64,
            right: floor_div_wide(image_plane_width as i128, 2) as i64,
            top: floor_div_wide(image_plane_height as i128, 2) as i64,
            bottom: floor_div_wide(-(image_plane_height as i128), 2) as i64,
        }
    }

    /// The point of the image plane that the offset `(di, dj)` in pixel
    /// `(i, j)` stands for.
    pub fn get_uv(&self, i: u32, j: u32, di: Real, dj: Real) -> (r: (Real, Real))
        requires
            self.wf(),
            in_range(di as int),
            in_range(dj as int),
        ensures
            r == self.spec_uv(i, j, di, dj),
            in_range(r.0 as int),
            in_range(r.1 as int),
    {
        let u = plane_coordinate(self.left, self.right, i, di, self.pixels_x);
        let v = plane_coordinate(self.bottom, self.top, j, dj, self.pixels_y);
        (u, v)
    }
}

impl Camera {
    /// What the camera shares with all others.
    pub open spec fn base(self) -> CameraBase {
        match self {
            Camera::Perspective(c) => c.base,
            Camera::Orthographic(c) => c.base,
        }
    }

    pub open spec fn wf(self) -> bool {
        match self {
            Camera::Perspective(c) => c.wf(),
            Camera::Orthographic(c) => c.wf(),
        }
    }

    /// The ray through the offset `(di, dj)` in pixel `(i, j)`, for the
    /// point `lens` of the unit disk.
    pub open spec fn spec_generate_ray(
        self,
        i: u32,
        j: u32,
        di: Real,
        dj: Real,
        lens: (Real, Real),
    ) -> Ray {
        match self {
            Camera::Perspective(c) => c.spec_generate_ray(i, j, di, dj, lens),
            Camera::Orthographic(c) => c.spec_generate_ray(i, j, di, dj),
        }
    }

    /// The same camera for an image of `pixels_x` by `pixels_y` pixels.
    pub open spec fn spec_with_pixels(self, pixels_x: u32, pixels_y: u32) -> Camera {
        match self {
            Camera::Perspective(c) => Camera::Perspective(
                PerspectiveCamera { base: CameraBase { pixels_x, pixels_y, ..c.base }, ..c },
            ),
            Camera::Orthographic(c) => Camera::Orthographic(
                OrthographicCamera { base: CameraBase { pixels_x, pixels_y, ..c.base } },
            ),
        }
    }

    pub fn camera_base(&self) -> (b: &CameraBase)
        ensures
            *b == self.base(),
    {
        match self {
            Camera::Perspective(c) => &c.base,
            Camera::Orthographic(c) => &c.base,
        }
    }

    /// Sets the size of the image in pixels.
    pub fn set_image_pixels(&mut self, pixels_x: u32, pixels_y: u32)
        ensures
            *final(self) == old(self).spec_with_pixels(pixels_x, pixels_y),
    {
        match self {
            Camera::Perspective(c) => {
                c.base.pixels_x = pixels_x;
                c.base.pixels_y = pixels_y;
            },
            Camera::Orthographic(c) => {
                c.base.pixels_x = pixels_x;
                c.base.pixels_y = pixels_y;
            },
        }
    }

    /// The ray through the offset `(di, dj)` in pixel `(i, j)`, for the
    /// point `lens` of the unit disk.
    pub fn generate_ray_with(&self, i: u32, j: u32, di: Real, dj: Real, lens: (Real, Real)) -> (r:
        Ray)
        requires
            self.wf(),
            in_range(di as int),
            in_range(dj as int),
        ensures
            r == self.spec_generate_ray(i, j, di, dj, lens),
            r.wf(),
    {
        match self {
            Camera::Perspective(c) => c.generate_ray_with(i, j, di, dj, lens),
            Camera::Orthographic(c) => c.generate_ray(i, j, di, dj),
        }
    }

    /// The ray through the offset `(di, dj)` in pixel `(i, j)`, through a
    /// random point of the lens.
    pub fn generate_ray(&self, i: u32, j: u32, di: Real, dj: Real) -> (r: Ray)
        requires
            self.wf(),
            in_range(di as int),
            in_range(dj as int),
        ensures
            r.wf(),
            exists|lens: (Real, Real)|
                is_disk_sample(lens) && r == #[trigger] self.spec_generate_ray(i, j, di, dj, lens),
    {
        let mut rng = thread_rng();
        let lens = random_in_unit_disk(&mut rng);
        self.generate_ray_with(i, j, di, dj, lens)
    }
}

} // verus!
