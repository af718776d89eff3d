//! The orthographic camera: parallel rays.
use crate::camera::CameraBase;
use crate::math::ray::Ray;
use crate::math::vector::{P3, V3};
use crate::scalar::{in_range, Real};
use vstd::prelude::*;

verus! {

#[derive(Debug)]
pub struct OrthographicCamera {
    pub base: CameraBase,
}

impl OrthographicCamera {
    pub open spec fn wf(self) -> bool {
        self.base.wf()
    }

    /// The ray through the offset `(di, dj)` in pixel `(i, j)`: it starts
    /// on the image plane through the camera's position and runs along the
    /// view.
    pub open spec fn spec_generate_ray(self, i: u32, j: u32, di: Real, dj: Real) -> Ray {
        let (u, v) = self.base.spec_uv(i, j, di, dj);
        Ray {
            origin: self.base.basis.position.spec_plus(
                self.base.basis.u.spec_scale(u).spec_plus(self.base.basis.v.spec_scale(v)),
            ),
            direction: self.base.basis.w.spec_neg(),
        }
    }

    pub fn new(position: P3, view_direction: &V3, aspect_ratio: Real) -> (c: OrthographicCamera)
        requires
            position.wf(),
            view_direction.wf(),
        ensures
            c.base == CameraBase::spec_new(position, *view_direction, aspect_ratio),
    {
        OrthographicCamera { base: CameraBase::new(position, view_direction, aspect_ratio) }
    }

    /// The ray through the offset `(di, dj)` in pixel `(i, j)`.
    pub fn generate_ray(&self, i: u32, j: u32, di: Real, dj: Real) -> (r: Ray)
        requires
            self.wf(),
            in_range(di as int),
            in_range(dj as int),
        ensures
            r == self.spec_generate_ray(i, j, di, dj),
            r.wf(),
    {
        let (u, v) = self.base.get_uv(i, j, di, dj);
        let origin = self.base.basis.position.plus(
            &self.base.basis.u.scale(u).plus(&self.base.basis.v.scale(v)),
        );
        Ray { origin, direction: self.base.basis.w.neg() }
    }
}

} // verus!
