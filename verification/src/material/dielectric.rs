//! Dielectrics: glass and the like.
use crate::hit_record::{HitData, HitRecord};
use crate::math::ray::Ray;
use crate::math::vector::{
    reflect, refract, spec_cos_theta, spec_reflect, spec_refract, Color, V3,
};
use crate::scalar::{
    real_add, real_div, real_min, real_mul, real_neg, real_sqrt, real_sub, spec_add, spec_div,
    spec_mul, spec_sqrt, spec_sub, Real, ONE,
};
use crate::texture::Texture;
use std::sync::Arc;
use vstd::prelude::*;

verus! {

/// Reflects or refracts like glass.
#[derive(Debug)]
pub struct Dielectric {
    pub attenuation: Arc<Texture>,
    pub refractive_index: Real,
}

/// `x` to the power `n`.
pub open spec fn spec_powi(x: Real, n: nat) -> Real
    decreases n,
{
    if n == 0 {
        ONE
    } else {
        spec_mul(spec_powi(x, (n - 1) as nat), x) as Real
    }
}

/// `x` to the power `n`.
pub fn powi(x: Real, n: u32) -> (r: Real)
    ensures
        r == spec_powi(x, n as nat),
{
    let mut r: Real = ONE;
    let mut i: u32 = 0;
    while i < n
        invariant
            i <= n,
            r == spec_powi(x, i as nat),
        decreases n - i,
    {
        r = real_mul(r, x);
        i += 1;
    }
    r
}

/// Schlick's approximation of the share of light that a surface reflects,
/// for the cosine of the angle of incidence and the ratio of the
/// refractive indices.
pub open spec fn spec_reflectance(cosine: Real, refractive_index: Real) -> Real {
    let r0 = spec_powi(
        spec_div(spec_sub(ONE, refractive_index) as Real, spec_add(ONE, refractive_index) as Real) as Real,
        2,
    );
    spec_add(
        r0,
        spec_mul(spec_sub(ONE, r0) as Real, spec_powi(spec_sub(ONE, cosine) as Real, 5)) as Real,
    ) as Real
}

/// Schlick's approximation of the share of light that a surface reflects.
pub fn reflectance(cosine: Real, refractive_index: Real) -> (r: Real)
    ensures
        r == spec_reflectance(cosine, refractive_index),
{
    let r0 = powi(real_div(real_sub(ONE, refractive_index), real_add(ONE, refractive_index)), 2);
    real_add(r0, real_mul(real_sub(ONE, r0), powi(real_sub(ONE, cosine), 5)))
}

impl Dielectric {
    pub fn new(attenuation: Arc<Texture>, refractive_index: Real) -> (m: Dielectric)
        ensures
            m.attenuation == attenuation,
            m.refractive_index == refractive_index,
    {
        Dielectric { attenuation, refractive_index }
    }

    /// The ratio of the refractive indices that the ray meets: into the
    /// material through a front face, out of it through a back face.
    pub open spec fn spec_relative_index(self, front_face: bool) -> Real {
        if front_face {
            spec_div(ONE, self.refractive_index) as Real
        } else {
            self.refractive_index
        }
    }

    /// The ray is reflected rather than refracted: it must be, by total
    /// internal reflection, or the random fraction falls below the share
    /// of light that the surface reflects.
    pub open spec fn spec_reflects(
        self,
        incoming: V3,
        normal: V3,
        front_face: bool,
        fraction: Real,
    ) -> bool {
        let index = self.spec_relative_index(front_face);
        let unit = incoming.spec_normalize();
        let cosine = spec_cos_theta(unit, normal);
        let sine = spec_sqrt(spec_sub(ONE, spec_mul(cosine, cosine) as Real) as Real) as Real;
        spec_mul(index, sine) > ONE || spec_reflectance(cosine, index) > fraction
    }

    /// The direction in which the ray goes on.
    pub open spec fn spec_direction(
        self,
        incoming: V3,
        normal: V3,
        front_face: bool,
        fraction: Real,
    ) -> V3 {
        let unit = incoming.spec_normalize();
        if self.spec_reflects(incoming, normal, front_face, fraction) {
            spec_reflect(unit, normal)
        } else {
            spec_refract(unit, normal, self.spec_relative_index(front_face))
        }
    }

    #[verifier::opaque]
    pub open spec fn spec_scatter(
        self,
        hit: HitRecord,
        hit_data: HitData,
        fraction: Real,
    ) -> Option<(Ray, Color)> {
        Some(
            (
                Ray {
                    origin: hit.ray.spec_point_at(hit.t),
                    direction: self.spec_direction(
                        hit.ray.direction,
                        hit_data.normal,
                        hit_data.front_face,
                        fraction,
                    ),
                },
                self.attenuation.spec_color(hit_data.uv),
            ),
        )
    }

    /// Scatters the ray of `hit` with the random fraction `fraction`.
    pub fn scatter_with(&self, hit: &HitRecord, hit_data: &HitData, fraction: Real) -> (r: Option<
        (Ray, Color),
    >)
        requires
            self.attenuation.wf(),
            hit.ray.wf(),
            hit_data.normal.wf(),
        ensures
            r == self.spec_scatter(*hit, *hit_data, fraction),
            r matches Some((ray, color)) && ray.wf() && color.wf(),
    {
        reveal(Dielectric::spec_scatter);
        let refractive_index = if hit_data.front_face {
            real_div(ONE, self.refractive_index)
        } else {
            self.refractive_index
        };
        let unit_direction = hit.ray.direction.normalize();
        let cosine = real_neg(real_min(unit_direction.dot(&hit_data.normal), ONE));
        let sine = real_sqrt(real_sub(ONE, real_mul(cosine, cosine)));
        let direction = if real_mul(refractive_index, sine) > ONE || reflectance(
            cosine,
            refractive_index,
        ) > fraction {
            reflect(&unit_direction, &hit_data.normal)
        } else {
            refract(&unit_direction, &hit_data.normal, refractive_index)
        };
        let hit_point = hit.point();
        Some(
            (Ray { origin: hit_point, direction }, self.attenuation.color(hit_data.uv, &hit_point)),
        )
    }
}

} // verus!
