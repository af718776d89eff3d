//! Materials: how a surface scatters and emits light.
pub mod dielectric;
pub mod diffuse;
pub mod diffuse_light;
pub mod lambertian;
pub mod laws;
pub mod metal;

use crate::hit_record::{HitData, HitRecord};
use crate::math::ray::Ray;
use crate::math::vector::{thread_rng, Color, P3, V3};
use crate::sampling::Sample;
use crate::scalar::Real;
use crate::texture::Texture;
use std::sync::Arc;
use vstd::prelude::*;

pub use dielectric::Dielectric;
pub use diffuse::Diffuse;
pub use diffuse_light::DiffuseLight;
pub use lambertian::Lambertian;
pub use metal::Metal;

verus! {

#[derive(Debug)]
pub enum Material {
    Diffuse(Diffuse),
    Lambertian(Lambertian),
    Metal(Metal),
    Dielectric(Dielectric),
    DiffuseLight(DiffuseLight),
}

/// `Arc::clone` of std. Taken on trust: the new handle is to the same
/// material.
#[verifier::external_body]
pub(crate) fn share(material: &Arc<Material>) -> (r: Arc<Material>)
    ensures
        r == *material,
{
    Arc::clone(material)
}

impl Material {
    /// The texture that colours what the material scatters or emits.
    pub open spec fn texture(self) -> Texture {
        match self {
            Material::Diffuse(m) => *m.albedo,
            Material::Lambertian(m) => *m.albedo,
            Material::Metal(m) => *m.albedo,
            Material::Dielectric(m) => *m.attenuation,
            Material::DiffuseLight(m) => *m.emission,
        }
    }

    /// The material's texture is well formed.
    pub open spec fn wf(self) -> bool {
        self.texture().wf()
    }

    /// The bounce ray and what it is attenuated by, for the random numbers
    /// of `sample`; `None` where the path ends at this surface.
    pub open spec fn spec_scatter(
        self,
        hit: HitRecord,
        hit_data: HitData,
        sample: Sample,
    ) -> Option<(Ray, Color)> {
        match self {
            Material::Diffuse(m) => m.spec_scatter(hit, hit_data, sample.direction),
            Material::Lambertian(m) => m.spec_scatter(hit, hit_data, sample.direction),
            Material::Metal(m) => m.spec_scatter(hit, hit_data, sample.direction),
            Material::Dielectric(m) => m.spec_scatter(hit, hit_data, sample.fraction),
            Material::DiffuseLight(m) => None,
        }
    }

    /// The light that the surface emits by itself: black for all but the
    /// lights.
    pub open spec fn spec_emitted(self, uv: (Real, Real)) -> Color {
        match self {
            Material::DiffuseLight(m) => m.emission.spec_color(uv),
            _ => V3 { x: 0, y: 0, z: 0 },
        }
    }

    /// Scatters the ray of `hit_record` with the random numbers of
    /// `sample`.
    pub fn scatter_with(&self, hit_record: &HitRecord, hit_data: &HitData, sample: &Sample) -> (r:
        Option<(Ray, Color)>)
        requires
            self.wf(),
            hit_record.ray.wf(),
            hit_data.normal.wf(),
            sample.direction.wf(),
        ensures
            r == self.spec_scatter(*hit_record, *hit_data, *sample),
            r matches Some((ray, color)) ==> ray.wf() && color.wf(),
    {
        match self {
            Material::Diffuse(m) => m.scatter_with(hit_record, hit_data, &sample.direction),
            Material::Lambertian(m) => m.scatter_with(hit_record, hit_data, &sample.direction),
            Material::Metal(m) => m.scatter_with(hit_record, hit_data, &sample.direction),
            Material::Dielectric(m) => m.scatter_with(hit_record, hit_data, sample.fraction),
            Material::DiffuseLight(_) => None,
        }
    }

    /// Scatters the ray of `hit_record` with random numbers of the calling
    /// thread's generator.
    pub fn scatter(&self, hit_record: &HitRecord, hit_data: &HitData) -> (r: Option<(Ray, Color)>)
        requires
            self.wf(),
            hit_record.ray.wf(),
            hit_data.normal.wf(),
        ensures
            exists|sample: Sample|
                sample.wf() && r == #[trigger] self.spec_scatter(*hit_record, *hit_data, sample),
            r matches Some((ray, color)) ==> ray.wf() && color.wf(),
    {
        let mut rng = thread_rng();
        let sample = Sample::draw(&mut rng);
        self.scatter_with(hit_record, hit_data, &sample)
    }

    /// The light that the surface emits by itself.
    pub fn emitted(&self, uv: (Real, Real), point: &P3) -> (c: Color)
        requires
            self.wf(),
        ensures
            c == self.spec_emitted(uv),
            c.wf(),
    {
        match self {
            Material::DiffuseLight(m) => m.emitted(uv, point),
            _ => V3::zero(),
        }
    }
}

} // verus!
