//! Metals: mirrors with a blur.
use crate::hit_record::{HitData, HitRecord};
use crate::math::ray::Ray;
use crate::math::vector::{reflect, spec_reflect, Color, V3};
use crate::scalar::{Real, ONE};
use crate::texture::Texture;
use std::sync::Arc;
use vstd::prelude::*;

verus! {

/// Reflects like a mirror, blurred by `fuzz`.
#[derive(Debug)]
pub struct Metal {
    pub albedo: Arc<Texture>,
    pub fuzz: Real,
}

impl Metal {
    /// A metal with the given blur, which is cut off at one.
    pub fn new(albedo: Arc<Texture>, fuzz: Real) -> (m: Metal)
        ensures
            m.albedo == albedo,
            m.fuzz == if fuzz < ONE { fuzz } else { ONE },
    {
        Metal { albedo, fuzz: if fuzz < ONE { fuzz } else { ONE } }
    }

    /// The mirror image of the incoming direction, of length one, moved by
    /// the random direction times the blur.
    pub open spec fn spec_direction(self, incoming: V3, normal: V3, random: V3) -> V3 {
        spec_reflect(incoming, normal).spec_normalize().spec_plus(random.spec_scale(self.fuzz))
    }

    /// The reflected ray; none where the blur has pushed it into the
    /// surface.
    #[verifier::opaque]
    pub open spec fn spec_scatter(
        self,
        hit: HitRecord,
        hit_data: HitData,
        random: V3,
    ) -> Option<(Ray, Color)> {
        let reflected = self.spec_direction(hit.ray.direction, hit_data.normal, random);
        if reflected.spec_dot(hit_data.normal) > 0 {
            Some(
                (
                    Ray { origin: hit.ray.spec_point_at(hit.t), direction: reflected },
                    self.albedo.spec_color(hit_data.uv),
                ),
            )
        } else {
            None
        }
    }

    /// Scatters the ray of `hit` with the random direction `random`.
    pub fn scatter_with(&self, hit: &HitRecord, hit_data: &HitData, random: &V3) -> (r: Option<
        (Ray, Color),
    >)
        requires
            self.albedo.wf(),
            hit.ray.wf(),
            hit_data.normal.wf(),
        ensures
            r == self.spec_scatter(*hit, *hit_data, *random),
            r matches Some((ray, color)) ==> ray.wf() && color.wf(),
    {
        reveal(Metal::spec_scatter);
        let reflected = reflect(&hit.ray.direction, &hit_data.normal).normalize().plus(
            &random.scale(self.fuzz),
        );
        if reflected.dot(&hit_data.normal) > 0 {
            let hit_point = hit.point();
            Some(
                (
                    Ray { origin: hit_point, direction: reflected },
                    self.albedo.color(hit_data.uv, &hit_point),
                ),
            )
        } else {
            None
        }
    }
}

} // verus!
