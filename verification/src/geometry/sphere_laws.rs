//! The closed form of a sphere's hit for a ray that is aimed at its centre.
use crate::geometry::sphere::Sphere;
use crate::hit_record::HitRecord;
use crate::math::ray::Ray;
use crate::scalar::{
    in_range, is_isqrt, isqrt, lemma_isqrt_exists, lemma_isqrt_unique, saturate, Real, ONE,
};
use vstd::prelude::*;

verus! {

/// The ray is aimed at the centre of the sphere, which it reaches at the
/// distance `m`: `m` times the direction leads from the ray's origin to the
/// centre, exactly. The direction need not have the length one.
pub open spec fn aims_at_centre(s: Sphere, ray: Ray, m: int) -> bool {
    &&& ray.direction.dot_wide(ray.direction) != 0
    &&& (s.center.x - ray.origin.x) * ONE == ray.direction.x * m
    &&& (s.center.y - ray.origin.y) * ONE == ray.direction.y * m
    &&& (s.center.z - ray.origin.z) * ONE == ray.direction.z * m
    &&& in_range(ray.origin.x - s.center.x)
    &&& in_range(ray.origin.y - s.center.y)
    &&& in_range(ray.origin.z - s.center.z)
}

/// The radius of the sphere as a distance along the ray, rounded down: the
/// radius divided by the length of the direction.
pub open spec fn radius_along(s: Sphere, ray: Ray) -> int {
    let a = ray.direction.dot_wide(ray.direction);
    (isqrt(a * (s.radius * s.radius)) * ONE) / a
}

/// The radius of the sphere as a distance along the ray, rounded up.
pub open spec fn radius_along_up(s: Sphere, ray: Ray) -> int {
    let a = ray.direction.dot_wide(ray.direction);
    -((-(isqrt(a * (s.radius * s.radius)) * ONE)) / a)
}

/// The quadratic of a ray that is aimed at the centre: `h` is minus the
/// distance of the centre, and the discriminant is the square of the
/// radius, both in units of the direction's squared length.
pub proof fn lemma_quadratic_through_centre(s: Sphere, ray: Ray, m: int)
    requires
        aims_at_centre(s, ray, m),
    ensures
        s.quadratic(ray).a == ray.direction.dot_wide(ray.direction),
        s.quadratic(ray).a > 0,
        s.quadratic(ray).h * ONE == -(m * s.quadratic(ray).a),
        s.quadratic(ray).discriminant() == s.quadratic(ray).a * (s.radius * s.radius),
{
    let q = s.quadratic(ray);
    let d = ray.direction;
    let co = ray.origin.spec_minus(s.center);
    let (cx, cy, cz) = (co.x as int, co.y as int, co.z as int);
    let (dx, dy, dz) = (d.x as int, d.y as int, d.z as int);
    let one = ONE as int;
    let r = s.radius as int;
    assert(cx == ray.origin.x - s.center.x);
    assert(cy == ray.origin.y - s.center.y);
    assert(cz == ray.origin.z - s.center.z);
    assert(cx * one == -(dx * m) && cy * one == -(dy * m) && cz * one == -(dz * m))
        by (nonlinear_arith)
        requires
            (-cx) * one == dx * m,
            (-cy) * one == dy * m,
            (-cz) * one == dz * m,
    ;
    let a = dx * dx + dy * dy + dz * dz;
    let h = cx * dx + cy * dy + cz * dz;
    let cc = cx * cx + cy * cy + cz * cz;
    assert(q.a == a && q.h == h && q.c == cc - r * r);
    assert(a >= 0) by (nonlinear_arith)
        requires
            a == dx * dx + dy * dy + dz * dz,
    ;
    assert((cx * dx) * one == -(m * (dx * dx))) by (nonlinear_arith)
        requires
            cx * one == -(dx * m),
    ;
    assert((cy * dy) * one == -(m * (dy * dy))) by (nonlinear_arith)
        requires
            cy * one == -(dy * m),
    ;
    assert((cz * dz) * one == -(m * (dz * dz))) by (nonlinear_arith)
        requires
            cz * one == -(dz * m),
    ;
    assert(h * one == -(m * a)) by (nonlinear_arith)
        requires
            h == cx * dx + cy * dy + cz * dz,
            a == dx * dx + dy * dy + dz * dz,
            (cx * dx) * one == -(m * (dx * dx)),
            (cy * dy) * one == -(m * (dy * dy)),
            (cz * dz) * one == -(m * (dz * dz)),
    ;
    assert((cx * cx) * (one * one) == (m * m) * (dx * dx)) by (nonlinear_arith)
        requires
            cx * one == -(dx * m),
    ;
    assert((cy * cy) * (one * one) == (m * m) * (dy * dy)) by (nonlinear_arith)
        requires
            cy * one == -(dy * m),
    ;
    assert((cz * cz) * (one * one) == (m * m) * (dz * dz)) by (nonlinear_arith)
        requires
            cz * one == -(dz * m),
    ;
    assert(cc * (one * one) == (m * m) * a) by (nonlinear_arith)
        requires
            cc == cx * cx + cy * cy + cz * cz,
            a == dx * dx + dy * dy + dz * dz,
            (cx * cx) * (one * one) == (m * m) * (dx * dx),
            (cy * cy) * (one * one) == (m * m) * (dy * dy),
            (cz * cz) * (one * one) == (m * m) * (dz * dz),
    ;
    // h h = a cc, both times one one
    assert((h * h) * (one * one) == (a * cc) * (one * one)) by (nonlinear_arith)
        requires
            h * one == -(m * a),
            cc * (one * one) == (m * m) * a,
    ;
    assert(h * h == a * cc) by (nonlinear_arith)
        requires
            (h * h) * (one * one) == (a * cc) * (one * one),
            one == 0x10_0000,
    ;
    assert(h * h - a * (cc - r * r) == a * (r * r)) by (nonlinear_arith)
        requires
            h * h == a * cc,
    ;
}

/// The closed form: a ray that is aimed at the centre of a sphere, which it
/// reaches at the distance `m`, meets the sphere at the distance of the
/// centre less the radius and at the distance of the centre plus the
/// radius, the radius counted in lengths of the direction and rounded
/// towards the nearer point.
pub proof fn lemma_sphere_through_centre(s: Sphere, ray: Ray, m: int)
    requires
        aims_at_centre(s, ray, m),
    ensures
        s.quadratic(ray).solvable(),
        s.quadratic(ray).near_root() == saturate(m - radius_along_up(s, ray)),
        s.quadratic(ray).far_root() == saturate(m + radius_along(s, ray)),
{
    let q = s.quadratic(ray);
    let one = ONE as int;
    let a = q.a;
    lemma_quadratic_through_centre(s, ray, m);
    let r2 = s.radius * s.radius;
    assert(r2 >= 0) by (nonlinear_arith)
        requires
            r2 == s.radius * s.radius,
    ;
    assert(a * r2 >= 0) by (nonlinear_arith)
        requires
            a > 0,
            r2 >= 0,
    ;
    lemma_isqrt_exists(a * r2);
    let root = isqrt(a * r2);
    assert((-q.h - root) * one == a * m + (-(root * one))) by (nonlinear_arith)
        requires
            q.h * one == -(m * a),
    ;
    assert((-q.h + root) * one == a * m + root * one) by (nonlinear_arith)
        requires
            q.h * one == -(m * a),
    ;
    lemma_hoist(m, -(root * one), a);
    lemma_hoist(m, root * one, a);
}

/// A whole multiple of the divisor can be taken out of a quotient.
pub proof fn lemma_hoist(m: int, x: int, a: int)
    requires
        a > 0,
    ensures
        (a * m + x) / a == m + x / a,
{
    let q = x / a;
    let r = x % a;
    vstd::arithmetic::div_mod::lemma_fundamental_div_mod(x, a);
    vstd::arithmetic::div_mod::lemma_mod_bound(x, a);
    assert(a * m + x == (m + q) * a + r) by (nonlinear_arith)
        requires
            x == a * q + r,
    ;
    vstd::arithmetic::div_mod::lemma_fundamental_div_mod_converse(a * m + x, a, m + q, r);
}

/// The closed form for a direction of length one: the sphere is met at the
/// distance of the centre less the radius, exactly. A record of that ray is
/// given that distance where it lies at or beyond the floor and before what
/// the record held, and the distance of the centre plus the radius where
/// the ray starts inside.
pub proof fn lemma_sphere_distance_less_radius(s: Sphere, rec: HitRecord, m: int)
    requires
        s.radius >= 0,
        aims_at_centre(s, rec.ray, m),
        rec.ray.direction.dot_wide(rec.ray.direction) == ONE * ONE,
        in_range(m - s.radius),
        in_range(m + s.radius),
    ensures
        s.quadratic(rec.ray).near_root() == m - s.radius,
        s.quadratic(rec.ray).far_root() == m + s.radius,
        rec.t_min <= m - s.radius ==> s.spec_distance(rec.ray, rec.t_min) == Some(
            (m - s.radius) as Real,
        ),
        rec.t_min <= m - s.radius < rec.t ==> s.spec_closest_hit(rec).t == m - s.radius,
        m - s.radius < rec.t_min <= m + s.radius < rec.t ==> s.spec_closest_hit(rec).t == m
            + s.radius,
{
    reveal(Sphere::spec_closest_hit);
    let one = ONE as int;
    let r = s.radius as int;
    let a = one * one;
    lemma_sphere_through_centre(s, rec.ray, m);
    let root = one * r;
    assert(root >= 0) by (nonlinear_arith)
        requires
            root == one * r,
            r >= 0,
            one == 0x10_0000,
    ;
    assert(a * (r * r) == root * root) by (nonlinear_arith)
        requires
            a == one * one,
            root == one * r,
    ;
    assert(is_isqrt(root * root, root)) by (nonlinear_arith)
        requires
            root >= 0,
    ;
    lemma_isqrt_unique(a * (r * r), root);
    assert(root * one == a * r) by (nonlinear_arith)
        requires
            a == one * one,
            root == one * r,
    ;
    assert(-(root * one) == a * (-r)) by (nonlinear_arith)
        requires
            root * one == a * r,
    ;
    assert(a > 0) by (nonlinear_arith)
        requires
            a == one * one,
            one == 0x10_0000,
    ;
    vstd::arithmetic::div_mod::lemma_div_multiples_vanish(r, a);
    vstd::arithmetic::div_mod::lemma_div_multiples_vanish(-r, a);
    assert(radius_along(s, rec.ray) == r);
    assert(radius_along_up(s, rec.ray) == r);
}

} // verus!
