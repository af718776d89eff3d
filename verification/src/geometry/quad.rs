//! Parallelograms.
use crate::geometry::bbox::{max3, min3, BBox};
use crate::geometry::triangle::{
    solve_plane, spec_solve_plane, spec_widened, widened, PlaneHit,
};
use crate::hit_record::HitRecord;
use crate::material::Material;
use crate::math::ray::Ray;
use crate::math::vector::{P3, V3};
use crate::scalar::{Real, ONE};
use std::sync::Arc;
use vstd::prelude::*;

verus! {

/// The parallelogram with the corner `q` and the sides `u` and `v`.
#[derive(Debug)]
pub struct Quad {
    pub q: P3,
    pub u: V3,
    pub v: V3,
    pub bbox: BBox,
    pub material: Arc<Material>,
}

/// The box around the four corners of a parallelogram, wider than they
/// reach on every side by what `spec_pad` says.
pub open spec fn spec_quad_box(q: P3, u: V3, v: V3) -> BBox {
    let qu = q.spec_plus(u);
    let qv = q.spec_plus(v);
    let quv = qu.spec_plus(v);
    spec_widened(min3(min3(q, qu), min3(qv, quv)), max3(max3(q, qu), max3(qv, quv)))
}

impl Quad {
    pub open spec fn wf(self) -> bool {
        &&& self.q.wf()
        &&& self.u.wf()
        &&& self.v.wf()
        &&& self.bbox.wf()
        &&& self.material.wf()
    }

    /// The point where `ray` meets the parallelogram, if it does so at a
    /// distance of at least `t_min`.
    pub open spec fn spec_intersect(self, ray: Ray, t_min: Real) -> Option<PlaneHit> {
        match spec_solve_plane(
            self.u.spec_neg(),
            self.v.spec_neg(),
            self.q.spec_minus(ray.origin),
            ray.direction,
            0,
        ) {
            Some(p) if p.t >= t_min && 0 <= p.gamma <= ONE && 0 <= p.beta <= ONE => Some(p),
            _ => None,
        }
    }

    /// The normal of the parallelogram's plane.
    pub open spec fn spec_normal(self) -> V3 {
        self.u.spec_cross(self.v).spec_normalize()
    }

    /// The record after this parallelogram has been tried.
    #[verifier::opaque]
    pub open spec fn spec_closest_hit<'a>(&'a self, rec: HitRecord<'a>) -> HitRecord<'a> {
        match self.spec_intersect(rec.ray, rec.t_min) {
            Some(p) if p.t < rec.t => rec.spec_with_hit(
                p.t,
                self.spec_normal(),
                (p.beta, p.gamma),
                &*self.material,
            ),
            _ => rec,
        }
    }

    pub fn new(q: P3, u: V3, v: V3, material: Arc<Material>) -> (r: Quad)
        requires
            q.wf(),
            u.wf(),
            v.wf(),
            material.wf(),
        ensures
            r.q == q && r.u == u && r.v == v,
            r.bbox == spec_quad_box(q, u, v),
            r.material == material,
            r.wf(),
    {
        let qu = q.plus(&u);
        let qv = q.plus(&v);
        let quv = qu.plus(&v);
        let b1 = BBox::from_corners(q, qu);
        let b2 = BBox::from_corners(qv, quv);
        let b = BBox::combine(&b1, &b2);
        Quad { q, u, v, bbox: widened(&b.min, &b.max), material }
    }

    /// The point where `ray` meets the parallelogram.
    pub fn intersect(&self, ray: &Ray, t_min: Real) -> (r: Option<PlaneHit>)
        requires
            self.wf(),
            ray.wf(),
        ensures
            r == self.spec_intersect(*ray, t_min),
            r matches Some(p) ==> t_min <= p.t && crate::scalar::in_range(p.t as int),
    {
        let ab = self.u.neg();
        let ac = self.v.neg();
        let ao = self.q.minus(&ray.origin);
        match solve_plane(&ab, &ac, &ao, &ray.direction, 0) {
            Some(p) => {
                if p.t < t_min {
                    return None;
                }
                if p.gamma < 0 || p.gamma > ONE {
                    return None;
                }
                if p.beta < 0 || p.beta > ONE {
                    return None;
                }
                Some(p)
            },
            None => None,
        }
    }

    /// Tries the parallelogram against the record's ray and keeps the hit
    /// if it is closer than what the record holds.
    pub fn closest_hit<'a>(&'a self, hit: &mut HitRecord<'a>) -> (b: bool)
        requires
            self.wf(),
            old(hit).wf(),
        ensures
            *final(hit) == self.spec_closest_hit(*old(hit)),
            b == (final(hit).t < old(hit).t),
            b ==> old(hit).improves(final(hit).t) && final(hit).hit_data is Some,
            !b ==> *final(hit) == *old(hit),
            final(hit).wf(),
            final(hit).ray == old(hit).ray,
            final(hit).t_min == old(hit).t_min,
            final(hit).depth == old(hit).depth,
    {
        reveal(Quad::spec_closest_hit);
        match self.intersect(&hit.ray, hit.t_min) {
            Some(p) => {
                if p.t < hit.t {
                    let normal = self.u.cross(&self.v).normalize();
                    hit.t = p.t;
                    hit.set_hit_data(normal, (p.beta, p.gamma), &*self.material);
                    true
                } else {
                    false
                }
            },
            None => false,
        }
    }
}

} // verus!
