//! Triangles, flat or with a normal at each corner.
use crate::geometry::bbox::{max3, min3, BBox};
use crate::hit_record::HitRecord;
use crate::material::Material;
use crate::math::ray::Ray;
use crate::math::vector::{det3, spec_det3, P3, V3};
use crate::scalar::{
    floor_div_wide, floor_quot, real_sub, saturate, saturate_wide, spec_sub, Real, ONE, ONE_WIDE,
};
use std::sync::Arc;
use vstd::prelude::*;

verus! {

#[derive(Debug)]
pub struct Triangle {
    pub a: P3,
    pub b: P3,
    pub c: P3,
    pub normal_a: V3,
    pub normal_b: V3,
    pub normal_c: V3,
    pub bbox: BBox,
    pub material: Arc<Material>,
}

/// Where a ray meets the plane of a triangle or of a parallelogram: the
/// distance along the ray and the two coordinates in the plane.
pub struct PlaneHit {
    pub t: Real,
    pub beta: Real,
    pub gamma: Real,
}

/// A determinant below this, in units of `1 / ONE³`, counts as zero: the ray
/// runs along the plane.
pub const PARALLEL_LIMIT: i128 = 0x100_0000_0000;

/// The quotient of two determinants, as a real.
pub open spec fn det_ratio(n: int, d: int) -> Real {
    saturate(floor_quot(n * ONE, d)) as Real
}

/// The solution of `origin + t d = a - beta ab - gamma ac` by Cramer's rule,
/// where `ab` and `ac` lead from the two other corners to `a`; `None` where
/// the determinant of the system is smaller than `limit` in absolute value.
pub open spec fn spec_solve_plane(ab: V3, ac: V3, ao: V3, d: V3, limit: int) -> Option<PlaneHit> {
    let det_a = spec_det3(ab, ac, d);
    if -limit < det_a < limit || det_a == 0 {
        None
    } else {
        Some(
            PlaneHit {
                t: det_ratio(spec_det3(ab, ac, ao), det_a),
                beta: det_ratio(spec_det3(ao, ac, d), det_a),
                gamma: det_ratio(spec_det3(ab, ao, d), det_a),
            },
        )
    }
}

/// The quotient of two determinants, as a real.
fn ratio(n: i128, d: i128) -> (r: Real)
    requires
        d != 0,
        -0x1800_0000_0000_0000_0000_0000 <= n <= 0x1800_0000_0000_0000_0000_0000,
        -0x1800_0000_0000_0000_0000_0000 <= d <= 0x1800_0000_0000_0000_0000_0000,
    ensures
        r == det_ratio(n as int, d as int),
        crate::scalar::in_range(r as int),
{
    saturate_wide(floor_div_wide(n * ONE_WIDE, d))
}

/// Solves `origin + t d = a - beta ab - gamma ac` by Cramer's rule.
pub fn solve_plane(ab: &V3, ac: &V3, ao: &V3, d: &V3, limit: i128) -> (r: Option<PlaneHit>)
    requires
        ab.wf(),
        ac.wf(),
        ao.wf(),
        d.wf(),
        limit >= 0,
    ensures
        r == spec_solve_plane(*ab, *ac, *ao, *d, limit as int),
        r matches Some(p) ==> crate::scalar::in_range(p.t as int) && crate::scalar::in_range(
            p.beta as int,
        ) && crate::scalar::in_range(p.gamma as int),
{
    let det_a: i128 = det3(ab, ac, d);
    if (-limit < det_a && det_a < limit) || det_a == 0 {
        return None;
    }
    let t = ratio(det3(ab, ac, ao), det_a);
    let beta = ratio(det3(ao, ac, d), det_a);
    let gamma = ratio(det3(ab, ao, d), det_a);
    Some(PlaneHit { t, beta, gamma })
}

/// By how much the box of a flat shape is wider, on either side, than the
/// shape is along an axis on which it has the extent `extent`: by one step,
/// so that the box is nowhere flat, and by four millionths of the extent,
/// which is more than the rounded coordinates of a hit can lie outside the
/// shape.
pub open spec fn spec_pad(extent: int) -> int {
    extent / 0x4_0000 + 1
}

/// The lower end of the box along an axis on which the shape reaches from
/// `lo` to `hi`.
pub open spec fn spec_low(lo: Real, hi: Real) -> int {
    lo - spec_pad(hi - lo)
}

/// The upper end of the box along an axis on which the shape reaches from
/// `lo` to `hi`.
pub open spec fn spec_high(lo: Real, hi: Real) -> int {
    hi + spec_pad(hi - lo)
}

/// The box around a flat shape that reaches from `lo` to `hi`: wider than
/// the shape on every side by what `spec_pad` says.
pub open spec fn spec_widened(lo: P3, hi: P3) -> BBox {
    BBox::spec_new(
        V3 {
            x: saturate(spec_low(lo.x, hi.x)) as Real,
            y: saturate(spec_low(lo.y, hi.y)) as Real,
            z: saturate(spec_low(lo.z, hi.z)) as Real,
        },
        V3 {
            x: saturate(spec_high(lo.x, hi.x)) as Real,
            y: saturate(spec_high(lo.y, hi.y)) as Real,
            z: saturate(spec_high(lo.z, hi.z)) as Real,
        },
    )
}

/// The two ends of the box along one axis.
fn widen(lo: Real, hi: Real) -> (r: (Real, Real))
    requires
        crate::scalar::in_range(lo as int),
        crate::scalar::in_range(hi as int),
        lo <= hi,
    ensures
        r.0 == saturate(spec_low(lo, hi)),
        r.1 == saturate(spec_high(lo, hi)),
        r.0 <= lo,
        hi <= r.1,
{
    let extent: i128 = hi as i128 - lo as i128;
    let pad: i128 = extent / 0x4_0000 + 1;
    (saturate_wide(lo as i128 - pad), saturate_wide(hi as i128 + pad))
}

/// The box around a flat shape that reaches from `lo` to `hi`.
pub fn widened(lo: &P3, hi: &P3) -> (r: BBox)
    requires
        lo.wf(),
        hi.wf(),
        crate::geometry::bbox::le3(*lo, *hi),
    ensures
        r == spec_widened(*lo, *hi),
        r.wf(),
        r.contains_point(*lo),
        r.contains_point(*hi),
{
    let x = widen(lo.x, hi.x);
    let y = widen(lo.y, hi.y);
    let z = widen(lo.z, hi.z);
    BBox::new(V3 { x: x.0, y: y.0, z: z.0 }, V3 { x: x.1, y: y.1, z: z.1 })
}

/// The box around three points, wider than they reach on every side by what
/// `spec_pad` says.
pub open spec fn spec_box_around(a: P3, b: P3, c: P3) -> BBox {
    spec_widened(min3(min3(a, b), c), max3(max3(a, b), c))
}

/// The box around three points.
pub fn box_around(a: &P3, b: &P3, c: &P3) -> (r: BBox)
    requires
        a.wf(),
        b.wf(),
        c.wf(),
    ensures
        r == spec_box_around(*a, *b, *c),
        r.wf(),
        r.contains_point(*a),
        r.contains_point(*b),
        r.contains_point(*c),
{
    let ab = BBox::from_corners(*a, *b);
    let lo = BBox::from_corners(ab.min, *c).min;
    let hi = BBox::from_corners(ab.max, *c).max;
    widened(&lo, &hi)
}

impl Triangle {
    pub open spec fn wf(self) -> bool {
        &&& self.a.wf()
        &&& self.b.wf()
        &&& self.c.wf()
        &&& self.normal_a.wf()
        &&& self.normal_b.wf()
        &&& self.normal_c.wf()
        &&& self.bbox.wf()
        &&& self.material.wf()
    }

    /// The normal of the plane through `a`, `b` and `c`.
    pub open spec fn spec_face_normal(a: P3, b: P3, c: P3) -> V3 {
        b.spec_minus(a).spec_cross(c.spec_minus(a)).spec_normalize()
    }

    /// The flat triangle with the corners `a`, `b` and `c`.
    pub open spec fn spec_new(a: P3, b: P3, c: P3, material: Arc<Material>) -> Triangle {
        Triangle {
            a,
            b,
            c,
            normal_a: Triangle::spec_face_normal(a, b, c),
            normal_b: Triangle::spec_face_normal(a, b, c),
            normal_c: Triangle::spec_face_normal(a, b, c),
            bbox: spec_box_around(a, b, c),
            material,
        }
    }

    /// The point where `ray` meets the triangle, if it does so at a distance
    /// of at least `t_min`.
    pub open spec fn spec_intersect(self, ray: Ray, t_min: Real) -> Option<PlaneHit> {
        match spec_solve_plane(
            self.a.spec_minus(self.b),
            self.a.spec_minus(self.c),
            self.a.spec_minus(ray.origin),
            ray.direction,
            PARALLEL_LIMIT as int,
        ) {
            Some(p) if p.t >= t_min && 0 <= p.gamma <= ONE && 0 <= p.beta <= spec_sub(
                ONE,
                p.gamma,
            ) => Some(p),
            _ => None,
        }
    }

    /// The corner normals blended by the coordinates of a point in the
    /// triangle, not normalised.
    pub open spec fn spec_blend_normal(self, beta: Real, gamma: Real) -> V3 {
        let alpha = spec_sub(spec_sub(ONE, beta) as Real, gamma) as Real;
        self.normal_a.spec_scale(alpha).spec_plus(self.normal_b.spec_scale(beta)).spec_plus(
            self.normal_c.spec_scale(gamma),
        )
    }

    /// The record after this triangle has been tried.
    #[verifier::opaque]
    pub open spec fn spec_closest_hit<'a>(&'a self, rec: HitRecord<'a>) -> HitRecord<'a> {
        match self.spec_intersect(rec.ray, rec.t_min) {
            Some(p) if p.t < rec.t => rec.spec_with_hit(
                p.t,
                self.spec_blend_normal(p.beta, p.gamma).spec_normalize(),
                (p.beta, p.gamma),
                &*self.material,
            ),
            _ => rec,
        }
    }

    /// A flat triangle: every corner has the normal of the plane.
    pub fn new(a: P3, b: P3, c: P3, material: Arc<Material>) -> (t: Triangle)
        requires
            a.wf(),
            b.wf(),
            c.wf(),
            material.wf(),
        ensures
            t == Triangle::spec_new(a, b, c, material),
            t.wf(),
    {
        let normal = b.minus(&a).cross(&c.minus(&a)).normalize();
        Triangle {
            a,
            b,
            c,
            normal_a: normal,
            normal_b: normal,
            normal_c: normal,
            bbox: box_around(&a, &b, &c),
            material,
        }
    }

    /// A triangle of a mesh, with a normal of its own at each corner.
    pub fn from_mesh(
        a: P3,
        b: P3,
        c: P3,
        normal_a: V3,
        normal_b: V3,
        normal_c: V3,
        material: Arc<Material>,
    ) -> (t: Triangle)
        requires
            a.wf(),
            b.wf(),
            c.wf(),
            normal_a.wf(),
            normal_b.wf(),
            normal_c.wf(),
            material.wf(),
        ensures
            t.a == a && t.b == b && t.c == c,
            t.normal_a == normal_a && t.normal_b == normal_b && t.normal_c == normal_c,
            t.bbox == spec_box_around(a, b, c),
            t.material == material,
            t.wf(),
    {
        Triangle { a, b, c, normal_a, normal_b, normal_c, bbox: box_around(&a, &b, &c), material }
    }

    /// The point where `ray` meets the triangle.
    pub fn intersect(&self, ray: &Ray, t_min: Real) -> (r: Option<PlaneHit>)
        requires
            self.wf(),
            ray.wf(),
        ensures
            r == self.spec_intersect(*ray, t_min),
            r matches Some(p) ==> t_min <= p.t && crate::scalar::in_range(p.t as int),
    {
        let ab = self.a.minus(&self.b);
        let ac = self.a.minus(&self.c);
        let ao = self.a.minus(&ray.origin);
        match solve_plane(&ab, &ac, &ao, &ray.direction, PARALLEL_LIMIT) {
            Some(p) => {
                if p.t < t_min {
                    return None;
                }
                if p.gamma < 0 || p.gamma > ONE {
                    return None;
                }
                if p.beta < 0 || p.beta > real_sub(ONE, p.gamma) {
                    return None;
                }
                Some(p)
            },
            None => None,
        }
    }

    /// Tries the triangle against the record's ray and keeps the hit if it
    /// is closer than what the record holds.
    pub fn closest_hit<'a>(&'a self, hit: &mut HitRecord<'a>) -> (b: bool)
        requires
            self.wf(),
            old(hit).wf(),
        ensures
            *final(hit) == self.spec_closest_hit(*old(hit)),
            b == (final(hit).t < old(hit).t),
            b ==> old(hit).improves(final(hit).t) && final(hit).hit_data is Some,
            !b ==> *final(hit) == *old(hit),
            final(hit).wf(),
            final(hit).ray == old(hit).ray,
            final(hit).t_min == old(hit).t_min,
            final(hit).depth == old(hit).depth,
    {
        reveal(Triangle::spec_closest_hit);
        match self.intersect(&hit.ray, hit.t_min) {
            Some(p) => {
                if p.t < hit.t {
                    let alpha = real_sub(real_sub(ONE, p.beta), p.gamma);
                    let normal = self.normal_a.scale(alpha).plus(&self.normal_b.scale(p.beta)).plus(
                        &self.normal_c.scale(p.gamma),
                    ).normalize();
                    hit.t = p.t;
                    hit.set_hit_data(normal, (p.beta, p.gamma), &*self.material);
                    true
                } else {
                    false
                }
            },
            None => false,
        }
    }
}

} // verus!
