//! The state of one ray while it looks for its closest hit.
use crate::material::Material;
use crate::math::ray::Ray;
use crate::math::vector::{P3, V3};
use crate::scalar::{in_range, Real, INFINITY, VERY_SMALL_NUMBER};
use vstd::prelude::*;

verus! {

/// The distance below which a primary ray ignores hits: a thousandth.
pub const PRIMARY_T_MIN: Real = 1049;

/// What is known of the surface at the closest hit.
#[derive(Clone, Copy, Debug)]
pub struct HitData<'a> {
    pub uv: (Real, Real),
    pub normal: V3,
    pub front_face: bool,
    pub material: &'a Material,
}

/// A ray, the closest hit found so far and how often the path has bounced.
#[derive(Clone, Copy, Debug)]
pub struct HitRecord<'a> {
    pub t: Real,
    pub t_min: Real,
    pub depth: u16,
    pub ray: Ray,
    pub hit_data: Option<HitData<'a>>,
}

impl<'a> HitData<'a> {
    pub open spec fn wf(self) -> bool {
        self.normal.wf() && self.material.wf()
    }

    /// The surface data of a hit by `ray` on a surface with the geometric
    /// normal `normal`: the stored normal is the one that faces the ray.
    pub open spec fn spec_facing(
        ray: Ray,
        normal: V3,
        uv: (Real, Real),
        material: &'a Material,
    ) -> HitData<'a> {
        let front_face = ray.direction.spec_dot(normal) < 0;
        HitData {
            uv,
            normal: if front_face {
                normal
            } else {
                normal.spec_neg()
            },
            front_face,
            material,
        }
    }
}

impl<'a> HitRecord<'a> {
    pub open spec fn wf(self) -> bool {
        &&& in_range(self.t as int)
        &&& in_range(self.t_min as int)
        &&& self.ray.wf()
        &&& self.hit_data matches Some(d) ==> d.wf()
    }

    /// The record of a primary ray before any hit.
    pub open spec fn spec_new(ray: Ray) -> HitRecord<'a> {
        HitRecord { t: INFINITY, t_min: PRIMARY_T_MIN, depth: 0, ray, hit_data: None }
    }

    /// The record of the ray `outgoing` that continues this path after one
    /// more bounce.
    pub open spec fn spec_bounce(self, outgoing: Ray) -> HitRecord<'a> {
        HitRecord {
            t: INFINITY,
            t_min: VERY_SMALL_NUMBER,
            depth: (self.depth + 1) as u16,
            ray: outgoing,
            hit_data: None,
        }
    }

    /// This record with a hit at distance `t` on a surface with the
    /// geometric normal `normal`.
    pub open spec fn spec_with_hit(
        self,
        t: Real,
        normal: V3,
        uv: (Real, Real),
        material: &'a Material,
    ) -> HitRecord<'a> {
        HitRecord {
            t,
            hit_data: Some(HitData::spec_facing(self.ray, normal, uv, material)),
            ..self
        }
    }

    /// A hit at distance `t` may replace what the record holds: it is not
    /// below the floor and strictly closer than the closest so far.
    pub open spec fn improves(self, t: Real) -> bool {
        self.t_min <= t < self.t
    }

    pub fn new(ray: Ray) -> (h: HitRecord<'a>)
        ensures
            h == HitRecord::spec_new(ray),
    {
        HitRecord { t: INFINITY, t_min: PRIMARY_T_MIN, depth: 0, ray, hit_data: None }
    }

    /// The record for the next ray of the path.
    pub fn bounce(&self, outgoing: Ray) -> (h: HitRecord<'a>)
        requires
            self.depth < u16::MAX,
        ensures
            h == self.spec_bounce(outgoing),
            h.depth == self.depth + 1,
    {
        HitRecord {
            t: INFINITY,
            t_min: VERY_SMALL_NUMBER,
            depth: self.depth + 1,
            ray: outgoing,
            hit_data: None,
        }
    }

    /// The point of the closest hit.
    pub fn point(&self) -> (p: P3)
        ensures
            p == self.ray.spec_point_at(self.t),
            p.wf(),
    {
        self.ray.point_at(self.t)
    }

    /// Stores the surface data of the hit at the record's distance, with the
    /// normal turned to face the ray.
    pub fn set_hit_data(&mut self, normal: V3, uv: (Real, Real), material: &'a Material)
        requires
            old(self).ray.wf(),
            normal.wf(),
        ensures
            *final(self) == old(self).spec_with_hit(old(self).t, normal, uv, material),
            final(self).hit_data.unwrap().normal.wf(),
    {
        let front_face = self.ray.direction.dot(&normal) < 0;
        let normal = if front_face {
            normal
        } else {
            normal.neg()
        };
        self.hit_data = Some(HitData { normal, uv, front_face, material });
    }
}

} // verus!
