//! Diffuse surfaces that scatter into the hemisphere above them.
use crate::hit_record::{HitData, HitRecord};
use crate::math::ray::Ray;
use crate::math::vector::{Color, V3};
use crate::scalar::VERY_SMALL_NUMBER;
use crate::texture::Texture;
use std::sync::Arc;
use vstd::prelude::*;

verus! {

/// Scatters into the hemisphere above the surface.
#[derive(Debug)]
pub struct Diffuse {
    pub albedo: Arc<Texture>,
}

/// `direction` made a unit vector; `normal` in its place where it is too
/// short to have a direction.
pub open spec fn spec_settle(direction: V3, normal: V3) -> V3 {
    if direction.spec_dot(direction) < VERY_SMALL_NUMBER {
        normal
    } else {
        direction.spec_normalize()
    }
}

/// `direction` made a unit vector; `normal` in its place where it is too
/// short to have a direction.
pub fn settle(direction: &V3, normal: &V3) -> (r: V3)
    requires
        direction.wf(),
        normal.wf(),
    ensures
        r == spec_settle(*direction, *normal),
        r.wf(),
{
    if direction.magnitude_squared() < VERY_SMALL_NUMBER {
        *normal
    } else {
        direction.normalize()
    }
}

impl Diffuse {
    pub fn new(albedo: Arc<Texture>) -> (m: Diffuse)
        ensures
            m.albedo == albedo,
    {
        Diffuse { albedo }
    }

    /// The direction of the scattered ray: the normal plus the random
    /// direction, turned into the normal's hemisphere first.
    pub open spec fn spec_direction(normal: V3, random: V3) -> V3 {
        let hemisphere = if random.spec_dot(normal) > 0 {
            random
        } else {
            random.spec_neg()
        };
        spec_settle(normal.spec_plus(hemisphere), normal)
    }

    #[verifier::opaque]
    pub open spec fn spec_scatter(
        self,
        hit: HitRecord,
        hit_data: HitData,
        random: V3,
    ) -> Option<(Ray, Color)> {
        let point = hit.ray.spec_point_at(hit.t);
        Some(
            (
                Ray { origin: point, direction: Diffuse::spec_direction(hit_data.normal, random) },
                self.albedo.spec_color(hit_data.uv),
            ),
        )
    }

    /// Scatters the ray of `hit` with the random direction `random`.
    pub fn scatter_with(&self, hit: &HitRecord, hit_data: &HitData, random: &V3) -> (r: Option<
        (Ray, Color),
    >)
        requires
            self.albedo.wf(),
            hit_data.normal.wf(),
            random.wf(),
        ensures
            r == self.spec_scatter(*hit, *hit_data, *random),
            r matches Some((ray, color)) && ray.wf() && color.wf(),
    {
        reveal(Diffuse::spec_scatter);
        let normal = hit_data.normal;
        let sample_hemisphere = if random.dot(&normal) > 0 {
            *random
        } else {
            random.neg()
        };
        let scatter_direction = settle(&normal.plus(&sample_hemisphere), &normal);
        let hit_point = hit.point();
        Some(
            (
                Ray { origin: hit_point, direction: scatter_direction },
                self.albedo.color(hit_data.uv, &hit_point),
            ),
        )
    }
}

} // verus!
