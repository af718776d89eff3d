//! The perspective camera, with a lens for depth of field.
use crate::camera::CameraBase;
use crate::math::ray::Ray;
use crate::math::vector::{P3, V3};
use crate::scalar::{in_range, Real};
use vstd::prelude::*;

verus! {

/// Rays leave a lens of radius `defocus_radius` around the camera's
/// position and meet on the image plane, `focal_length` in front of it.
#[derive(Debug)]
pub struct PerspectiveCamera {
    pub base: CameraBase,
    pub focal_length: Real,
    pub defocus_radius: Real,
}

impl PerspectiveCamera {
    pub open spec fn wf(self) -> bool {
        self.base.wf()
    }

    /// The direction from the camera's position to the point `(u, v)` of
    /// the image plane.
    pub open spec fn spec_pixel_direction(self, u: Real, v: Real) -> V3 {
        self.base.basis.u.spec_scale(u).spec_plus(self.base.basis.v.spec_scale(v)).spec_minus(
            self.base.basis.w.spec_scale(self.focal_length),
        )
    }

    /// The place on the lens of the point `lens` of the unit disk, seen
    /// from the camera's position.
    pub open spec fn spec_lens_offset(self, lens: (Real, Real)) -> V3 {
        self.base.basis.u.spec_scale(lens.0).spec_plus(
            self.base.basis.v.spec_scale(lens.1),
        ).spec_scale(self.defocus_radius)
    }

    /// The ray through the offset `(di, dj)` in pixel `(i, j)`: from the
    /// camera's position where there is no lens, else from the point
    /// `lens` of the lens towards the same point of the image plane.
    pub open spec fn spec_generate_ray(
        self,
        i: u32,
        j: u32,
        di: Real,
        dj: Real,
        lens: (Real, Real),
    ) -> Ray {
        let (u, v) = self.base.spec_uv(i, j, di, dj);
        let direction = self.spec_pixel_direction(u, v);
        if self.defocus_radius <= 0 {
            Ray { origin: self.base.basis.position, direction }
        } else {
            let offset = self.spec_lens_offset(lens);
            Ray {
                origin: self.base.basis.position.spec_plus(offset),
                direction: direction.spec_minus(offset),
            }
        }
    }

    /// A camera without a lens: every ray leaves from `position`.
    pub fn new(position: P3, view_direction: &V3, aspect_ratio: Real, focal_length: Real) -> (c:
        PerspectiveCamera)
        requires
            position.wf(),
            view_direction.wf(),
        ensures
            c.base == CameraBase::spec_new(position, *view_direction, aspect_ratio),
            c.focal_length == focal_length,
            c.defocus_radius == 0,
    {
        PerspectiveCamera {
            base: CameraBase::new(position, view_direction, aspect_ratio),
            focal_length,
            defocus_radius: 0,
        }
    }

    /// A camera with a lens of radius `defocus_radius` that is in focus at
    /// the distance `focal_length`.
    pub fn with_lens(
        position: P3,
        view_direction: &V3,
        aspect_ratio: Real,
        focal_length: Real,
        defocus_radius: Real,
    ) -> (c: PerspectiveCamera)
        requires
            position.wf(),
            view_direction.wf(),
        ensures
            c.base == CameraBase::spec_new(position, *view_direction, aspect_ratio),
            c.focal_length == focal_length,
            c.defocus_radius == defocus_radius,
    {
        PerspectiveCamera {
            base: CameraBase::new(position, view_direction, aspect_ratio),
            focal_length,
            defocus_radius,
        }
    }

    /// The ray through the offset `(di, dj)` in pixel `(i, j)`, for the
    /// point `lens` of the unit disk.
    pub fn generate_ray_with(&self, i: u32, j: u32, di: Real, dj: Real, lens: (Real, Real)) -> (r:
        Ray)
        requires
            self.wf(),
            in_range(di as int),
            in_range(dj as int),
        ensures
            r == self.spec_generate_ray(i, j, di, dj, lens),
            r.wf(),
    {
        let (u, v) = self.base.get_uv(i, j, di, dj);
        let direction = self.base.basis.u.scale(u).plus(&self.base.basis.v.scale(v)).minus(
            &self.base.basis.w.scale(self.focal_length),
        );
        if self.defocus_radius <= 0 {
            Ray { origin: self.base.basis.position, direction }
        } else {
            let offset = self.base.basis.u.scale(lens.0).plus(
                &self.base.basis.v.scale(lens.1),
            ).scale(self.defocus_radius);
            Ray { origin: self.base.basis.position.plus(&offset), direction: direction.minus(&offset) }
        }
    }
}

} // verus!
