//! Lambertian surfaces.
use crate::hit_record::{HitData, HitRecord};
use crate::material::diffuse::{settle, spec_settle};
use crate::math::ray::Ray;
use crate::math::vector::{Color, V3};
use crate::texture::Texture;
use std::sync::Arc;
use vstd::prelude::*;

verus! {

/// Scatters around the surface normal.
#[derive(Debug)]
pub struct Lambertian {
    pub albedo: Arc<Texture>,
}

impl Lambertian {
    pub fn new(albedo: Arc<Texture>) -> (m: Lambertian)
        ensures
            m.albedo == albedo,
    {
        Lambertian { albedo }
    }

    /// The direction of the scattered ray: the normal plus the random
    /// direction.
    pub open spec fn spec_direction(normal: V3, random: V3) -> V3 {
        spec_settle(normal.spec_plus(random), normal)
    }

    #[verifier::opaque]
    pub open spec fn spec_scatter(
        self,
        hit: HitRecord,
        hit_data: HitData,
        random: V3,
    ) -> Option<(Ray, Color)> {
        let point = hit.ray.spec_point_at(hit.t);
        Some(
            (
                Ray {
                    origin: point,
                    direction: Lambertian::spec_direction(hit_data.normal, random),
                },
                self.albedo.spec_color(hit_data.uv),
            ),
        )
    }

    /// Scatters the ray of `hit` with the random direction `random`.
    pub fn scatter_with(&self, hit: &HitRecord, hit_data: &HitData, random: &V3) -> (r: Option<
        (Ray, Color),
    >)
        requires
            self.albedo.wf(),
            hit_data.normal.wf(),
            random.wf(),
        ensures
            r == self.spec_scatter(*hit, *hit_data, *random),
            r matches Some((ray, color)) && ray.wf() && color.wf(),
    {
        reveal(Lambertian::spec_scatter);
        let normal = hit_data.normal;
        let scatter_direction = settle(&normal.plus(random), &normal);
        let hit_point = hit.point();
        Some(
            (
                Ray { origin: hit_point, direction: scatter_direction },
                self.albedo.color(hit_data.uv, &hit_point),
            ),
        )
    }
}

} // verus!
