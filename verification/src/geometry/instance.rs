//! A shape placed in the scene by an affine map.
use crate::geometry::bbox::BBox;
use crate::geometry::shape::Shape;
use crate::hit_record::{HitData, HitRecord};
use crate::material::Material;
use crate::math::ray::Ray;
use crate::math::transform::{Rotation3, Transform};
use crate::math::vector::V3;
use std::sync::Arc;
use vstd::prelude::*;

verus! {

#[derive(Debug)]
pub struct Instance {
    pub shape: Arc<Shape>,
    pub inv_transform: Transform,
    pub normal_matrix: Transform,
    pub bbox: BBox,
    pub material: Arc<Material>,
}

impl Instance {
    pub open spec fn wf(&self) -> bool
        decreases self, 0int, 0int,
    {
        &&& self.shape.wf()
        &&& self.inv_transform.wf()
        &&& self.normal_matrix.wf()
        &&& self.bbox.wf()
        &&& self.material.wf()
    }

    /// The ray as the wrapped shape sees it.
    pub open spec fn local_ray(&self, ray: Ray) -> Ray {
        Ray {
            origin: self.inv_transform.spec_transform_point(ray.origin),
            direction: self.inv_transform.spec_transform_vector(ray.direction),
        }
    }

    /// The surface data of a hit on the instance, from that of the hit on
    /// the wrapped shape: the normal is carried to the scene's space and
    /// made a unit vector again, the material is the instance's, and the
    /// surface coordinates and the face that was hit stay what they were
    /// found to be at the moment of the hit.
    pub open spec fn spec_carry<'a>(&'a self, inner: HitData<'a>) -> HitData<'a> {
        HitData {
            uv: inner.uv,
            normal: self.normal_matrix.spec_transform_vector(inner.normal).spec_normalize(),
            front_face: inner.front_face,
            material: &*self.material,
        }
    }

    /// The record after the instance has been tried: the wrapped shape is
    /// tried with the ray carried into its own space, and a hit comes back
    /// at the same distance, with its surface data carried to the scene's
    /// space.
    pub open spec fn spec_closest_hit<'a>(&'a self, rec: HitRecord<'a>) -> HitRecord<'a>
        decreases self, 0int, 0int,
    {
        let inner = self.shape.spec_closest_hit(HitRecord { ray: self.local_ray(rec.ray), ..rec });
        if inner.t < rec.t && inner.hit_data is Some {
            HitRecord {
                t: inner.t,
                hit_data: Some(self.spec_carry(inner.hit_data.unwrap())),
                ..rec
            }
        } else {
            rec
        }
    }

    /// The shape scaled by `scale`, then rotated, then moved by
    /// `translation`; `None` where a component of `scale` is zero, so that
    /// the map has no inverse.
    pub fn new(
        shape: Arc<Shape>,
        translation: V3,
        rotation: Rotation3,
        scale: V3,
        material: Arc<Material>,
    ) -> (r: Option<Instance>)
        requires
            shape.wf(),
            translation.wf(),
            rotation.wf(),
            scale.wf(),
            material.wf(),
        ensures
            r is Some <==> (scale.x != 0 && scale.y != 0 && scale.z != 0),
            r matches Some(i) ==> {
                &&& i.shape == shape
                &&& i.material == material
                &&& i.inv_transform == Transform::spec_compose_inverse(translation, rotation, scale)
                &&& i.normal_matrix == Transform::spec_normal_matrix(rotation, scale)
                &&& i.bbox == shape.bbox().spec_transform(
                    Transform::spec_compose(translation, rotation, scale),
                )
                &&& i.wf()
            },
    {
        if scale.x == 0 || scale.y == 0 || scale.z == 0 {
            return None;
        }
        let transform = Transform::compose(&translation, &rotation, &scale);
        let inv_transform = Transform::compose_inverse(&translation, &rotation, &scale);
        let normal_matrix = Transform::normal_matrix(&rotation, &scale);
        proof {
            crate::geometry::shape::lemma_shape_bbox_wf(&*shape);
        }
        let bbox = shape.get_bbox().transform(&transform);
        Some(Instance { shape, inv_transform, normal_matrix, bbox, material })
    }

    /// Tries the instance against the record's ray and keeps the hit if it
    /// is closer than what the record holds.
    pub fn closest_hit<'a>(&'a self, hit: &mut HitRecord<'a>) -> (b: bool)
        requires
            self.wf(),
            old(hit).wf(),
        ensures
            *final(hit) == self.spec_closest_hit(*old(hit)),
            b == (final(hit).t < old(hit).t),
            b ==> old(hit).improves(final(hit).t) && final(hit).hit_data is Some,
            !b ==> *final(hit) == *old(hit),
            final(hit).wf(),
            final(hit).ray == old(hit).ray,
            final(hit).t_min == old(hit).t_min,
            final(hit).depth == old(hit).depth,
        decreases self, 0int, 0int,
    {
        let og_ray = hit.ray;
        hit.ray = Ray {
            origin: self.inv_transform.transform_point(&og_ray.origin),
            direction: self.inv_transform.transform_vector(&og_ray.direction),
        };
        let did_hit = self.shape.closest_hit(hit);
        hit.ray = og_ray;
        if !did_hit {
            return false;
        }
        match hit.hit_data {
            Some(data) => {
                let normal = self.normal_matrix.transform_vector(&data.normal).normalize();
                hit.hit_data = Some(
                    HitData {
                        uv: data.uv,
                        normal,
                        front_face: data.front_face,
                        material: &*self.material,
                    },
                );
                true
            },
            None => false,
        }
    }
}

} // verus!
