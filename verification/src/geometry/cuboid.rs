//! Axis-aligned boxes as shapes.
use crate::geometry::bbox::{le3, BBox};
use crate::hit_record::HitRecord;
use crate::material::Material;
use crate::math::vector::{P3, V3};
use crate::scalar::{real_abs, spec_abs, spec_div, Real, ONE};
use std::sync::Arc;
use vstd::prelude::*;

verus! {

#[derive(Debug)]
pub struct Cuboid {
    pub bbox: BBox,
    pub material: Arc<Material>,
}

impl Cuboid {
    pub open spec fn wf(self) -> bool {
        self.bbox.wf() && self.material.wf()
    }

    /// The outward normal of the face that `hit_point` lies on: the axis
    /// along which the point is furthest from the centre, measured in
    /// box sizes, with the sign of the side it is on.
    pub open spec fn spec_normal(self, hit_point: P3) -> V3 {
        let pc = hit_point.spec_minus(self.bbox.centroid);
        let dx = spec_abs(spec_div(pc.x, self.bbox.extent.x) as Real);
        let dy = spec_abs(spec_div(pc.y, self.bbox.extent.y) as Real);
        let dz = spec_abs(spec_div(pc.z, self.bbox.extent.z) as Real);
        if dx > dy && dx > dz {
            V3 { x: if pc.x > 0 { ONE } else { (-ONE) as Real }, y: 0, z: 0 }
        } else if dy > dz {
            V3 { x: 0, y: if pc.y > 0 { ONE } else { (-ONE) as Real }, z: 0 }
        } else {
            V3 { x: 0, y: 0, z: if pc.z > 0 { ONE } else { (-ONE) as Real } }
        }
    }

    /// The record after this box has been tried: the slab test gives the
    /// distance, and the hit is kept if it is closer than what the record
    /// held.
    #[verifier::opaque]
    pub open spec fn spec_closest_hit<'a>(&'a self, rec: HitRecord<'a>) -> HitRecord<'a> {
        match self.bbox.spec_hit(rec.ray, rec.t_min, rec.t) {
            Some(t) if t < rec.t => rec.spec_with_hit(
                t,
                self.spec_normal(rec.ray.spec_point_at(t)),
                (0, 0),
                &*self.material,
            ),
            _ => rec,
        }
    }

    pub fn new(min: P3, max: P3, material: Arc<Material>) -> (c: Cuboid)
        requires
            min.wf(),
            max.wf(),
            le3(min, max),
            material.wf(),
        ensures
            c.bbox == BBox::spec_new(min, max),
            c.material == material,
            c.wf(),
    {
        Cuboid { bbox: BBox::new(min, max), material }
    }

    /// The outward normal of the face that `hit_point` lies on.
    pub fn normal(&self, hit_point: &P3) -> (n: V3)
        ensures
            n == self.spec_normal(*hit_point),
            n.wf(),
    {
        let pc = hit_point.minus(&self.bbox.centroid);
        let dist = pc.component_div(&self.bbox.extent);
        let dx = real_abs(dist.x);
        let dy = real_abs(dist.y);
        let dz = real_abs(dist.z);
        if dx > dy && dx > dz {
            V3 { x: if pc.x > 0 { ONE } else { -ONE }, y: 0, z: 0 }
        } else if dy > dz {
            V3 { x: 0, y: if pc.y > 0 { ONE } else { -ONE }, z: 0 }
        } else {
            V3 { x: 0, y: 0, z: if pc.z > 0 { ONE } else { -ONE } }
        }
    }

    /// Tries the box against the record's ray and keeps the hit if it is
    /// closer than what the record holds.
    pub fn closest_hit<'a>(&'a self, hit: &mut HitRecord<'a>) -> (b: bool)
        requires
            self.wf(),
            old(hit).wf(),
        ensures
            *final(hit) == self.spec_closest_hit(*old(hit)),
            b == (final(hit).t < old(hit).t),
            b ==> old(hit).improves(final(hit).t) && final(hit).hit_data is Some,
            !b ==> *final(hit) == *old(hit),
            final(hit).wf(),
            final(hit).ray == old(hit).ray,
            final(hit).t_min == old(hit).t_min,
            final(hit).depth == old(hit).depth,
    {
        reveal(Cuboid::spec_closest_hit);
        match self.bbox.hit(&hit.ray, hit.t_min, hit.t) {
            Some(t) => {
                if t < hit.t {
                    let normal = self.normal(&hit.ray.point_at(t));
                    hit.t = t;
                    hit.set_hit_data(normal, (0, 0), &*self.material);
                    true
                } else {
                    false
                }
            },
            None => false,
        }
    }
}

} // verus!
