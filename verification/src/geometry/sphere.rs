//! Spheres.
use crate::geometry::bbox::BBox;
use crate::hit_record::HitRecord;
use crate::material::Material;
use crate::math::angle::{spec_sphere_uv, sphere_uv};
use crate::math::ray::Ray;
use crate::math::vector::{P3, V3};
use crate::scalar::{
    floor_div_wide, floor_quot, in_range, isqrt, isqrt_wide, lemma_product_bound, mul_wide,
    saturate, saturate_wide, Real, ONE, ONE_WIDE,
};
use std::sync::Arc;
use vstd::prelude::*;

verus! {

#[derive(Debug)]
pub struct Sphere {
    pub center: P3,
    pub radius: Real,
    pub bbox: BBox,
    pub material: Arc<Material>,
}

/// The coefficients of the quadratic `a t² + 2 h t + c = 0` that a ray and a
/// sphere solve together, and its discriminant `h² - a c`.
pub struct Quadratic {
    pub a: int,
    pub h: int,
    pub c: int,
}

impl Quadratic {
    pub open spec fn discriminant(self) -> int {
        self.h * self.h - self.a * self.c
    }

    /// The ray has a direction and reaches the sphere's surface.
    pub open spec fn solvable(self) -> bool {
        self.a != 0 && self.discriminant() >= 0
    }

    /// The smaller root, as a real.
    pub open spec fn near_root(self) -> int {
        saturate(floor_quot((-self.h - isqrt(self.discriminant())) * ONE, self.a))
    }

    /// The larger root, as a real.
    pub open spec fn far_root(self) -> int {
        saturate(floor_quot((-self.h + isqrt(self.discriminant())) * ONE, self.a))
    }
}

/// The cube around a sphere lies within the range of the numbers.
pub open spec fn cube_fits(center: P3, radius: Real) -> bool {
    &&& radius >= 0
    &&& in_range(center.x - radius) && in_range(center.x + radius)
    &&& in_range(center.y - radius) && in_range(center.y + radius)
    &&& in_range(center.z - radius) && in_range(center.z + radius)
}

impl Sphere {
    pub open spec fn wf(self) -> bool {
        &&& self.center.wf()
        &&& in_range(self.radius as int)
        &&& self.bbox.wf()
        &&& self.material.wf()
    }

    /// The quadratic for the distances at which `ray` meets the sphere.
    pub open spec fn quadratic(self, ray: Ray) -> Quadratic {
        let co = ray.origin.spec_minus(self.center);
        Quadratic {
            a: ray.direction.dot_wide(ray.direction),
            h: co.dot_wide(ray.direction),
            c: co.dot_wide(co) - self.radius * self.radius,
        }
    }

    /// The distance of the first point at or beyond `t_min` where `ray`
    /// meets the sphere: the smaller root if it is not below `t_min`, else
    /// the larger one.
    pub open spec fn spec_distance(self, ray: Ray, t_min: Real) -> Option<Real> {
        let q = self.quadratic(ray);
        if !q.solvable() {
            None
        } else if q.near_root() >= t_min {
            Some(q.near_root() as Real)
        } else if q.far_root() >= t_min {
            Some(q.far_root() as Real)
        } else {
            None
        }
    }

    /// The outward direction at `point`, not normalised.
    pub open spec fn spec_normal(self, point: P3) -> V3 {
        point.spec_minus(self.center)
    }

    /// The record after this sphere has been tried: with the hit on the
    /// sphere if that is closer than what the record held, else unchanged.
    /// The hit has the outward unit normal at its point and that normal's
    /// surface coordinates.
    #[verifier::opaque]
    pub open spec fn spec_closest_hit<'a>(&'a self, rec: HitRecord<'a>) -> HitRecord<'a> {
        match self.spec_distance(rec.ray, rec.t_min) {
            Some(t) if t < rec.t => rec.spec_with_hit(
                t,
                self.spec_normal(rec.ray.spec_point_at(t)).spec_normalize(),
                spec_sphere_uv(self.spec_normal(rec.ray.spec_point_at(t)).spec_normalize()),
                &*self.material,
            ),
            _ => rec,
        }
    }

    /// The sphere around `center`. A negative radius counts as its absolute
    /// value.
    pub fn new(center: P3, radius: Real, material: Arc<Material>) -> (s: Sphere)
        requires
            center.wf(),
            in_range(radius as int),
            material.wf(),
        ensures
            s.center == center,
            s.radius == radius,
            s.material == material,
            s.bbox == BBox::spec_new(
                crate::geometry::bbox::min3(
                    center.spec_minus(V3 { x: radius, y: radius, z: radius }),
                    center.spec_plus(V3 { x: radius, y: radius, z: radius }),
                ),
                crate::geometry::bbox::max3(
                    center.spec_minus(V3 { x: radius, y: radius, z: radius }),
                    center.spec_plus(V3 { x: radius, y: radius, z: radius }),
                ),
            ),
            s.wf(),
            cube_fits(center, radius) ==> s.bbox.min == (V3 {
                x: (center.x - radius) as Real,
                y: (center.y - radius) as Real,
                z: (center.z - radius) as Real,
            }) && s.bbox.max == (V3 {
                x: (center.x + radius) as Real,
                y: (center.y + radius) as Real,
                z: (center.z + radius) as Real,
            }),
    {
        let r = V3 { x: radius, y: radius, z: radius };
        Sphere { center, radius, bbox: BBox::from_corners(center.minus(&r), center.plus(&r)), material }
    }

    /// The outward direction at `point`, not normalised.
    pub fn normal(&self, point: &P3) -> (n: V3)
        ensures
            n == self.spec_normal(*point),
            n.wf(),
    {
        point.minus(&self.center)
    }

    /// The distance of the first point at or beyond `t_min` where `ray`
    /// meets the sphere.
    pub fn distance(&self, ray: &Ray, t_min: Real) -> (r: Option<Real>)
        requires
            self.wf(),
            ray.wf(),
        ensures
            r == self.spec_distance(*ray, t_min),
            r matches Some(t) ==> t_min <= t && in_range(t as int),
    {
        let co = ray.origin.minus(&self.center);
        let d = ray.direction;
        proof {
            lemma_dot_bound(d, d);
            lemma_dot_bound(co, d);
            lemma_dot_bound(co, co);
            lemma_product_bound(self.radius as int, self.radius as int, 0x4000_0000, 0x4000_0000);
        }
        let a: i128 = d.dot_exact(&d);
        let h: i128 = co.dot_exact(&d);
        let rr: i128 = mul_wide(
            self.radius as i128,
            self.radius as i128,
            Ghost(0x4000_0000),
            Ghost(0x4000_0000),
        );
        let c: i128 = co.dot_exact(&co) - rr;
        let hh: i128 = mul_wide(h, h, Ghost(0x3000_0000_0000_0000), Ghost(0x3000_0000_0000_0000));
        let ac: i128 = mul_wide(a, c, Ghost(0x3000_0000_0000_0000), Ghost(0x4000_0000_0000_0000));
        let disc: i128 = hh - ac;
        if a == 0 || disc < 0 {
            return None;
        }
        let s: i128 = isqrt_wide(disc as u128) as i128;
        let near: Real = saturate_wide(floor_div_wide((-h - s) * ONE_WIDE, a));
        let far: Real = saturate_wide(floor_div_wide((-h + s) * ONE_WIDE, a));
        if near >= t_min {
            Some(near)
        } else if far >= t_min {
            Some(far)
        } else {
            None
        }
    }

    /// Tries the sphere against the record's ray and keeps the hit if it is
    /// closer than what the record holds.
    pub fn closest_hit<'a>(&'a self, hit: &mut HitRecord<'a>) -> (b: bool)
        requires
            self.wf(),
            old(hit).wf(),
        ensures
            *final(hit) == self.spec_closest_hit(*old(hit)),
            b == (final(hit).t < old(hit).t),
            b ==> old(hit).improves(final(hit).t) && final(hit).hit_data is Some,
            !b ==> *final(hit) == *old(hit),
            final(hit).wf(),
            final(hit).ray == old(hit).ray,
            final(hit).t_min == old(hit).t_min,
            final(hit).depth == old(hit).depth,
    {
        reveal(Sphere::spec_closest_hit);
        match self.distance(&hit.ray, hit.t_min) {
            Some(t) => {
                if t < hit.t {
                    let normal = self.normal(&hit.ray.point_at(t)).normalize();
                    hit.t = t;
                    hit.set_hit_data(normal, sphere_uv(&normal), &*self.material);
                    true
                } else {
                    false
                }
            },
            None => false,
        }
    }
}

/// The exact dot product of two vectors within the saturation bounds.
pub proof fn lemma_dot_bound(a: V3, b: V3)
    requires
        a.wf(),
        b.wf(),
    ensures
        -0x3000_0000_0000_0000 <= a.dot_wide(b) <= 0x3000_0000_0000_0000,
{
    lemma_product_bound(a.x as int, b.x as int, 0x4000_0000, 0x4000_0000);
    lemma_product_bound(a.y as int, b.y as int, 0x4000_0000, 0x4000_0000);
    lemma_product_bound(a.z as int, b.z as int, 0x4000_0000, 0x4000_0000);
}

} // verus!
