//! Where a shape cannot hide behind its own box: its hits lie on the stretch
//! of the ray that is inside the box.
use crate::geometry::bbox::{axis_enter, axis_exit, max3, min3, plane_distance, BBox};
use crate::math::transform::{Rotation3, Transform};
use crate::geometry::cuboid::Cuboid;
use crate::geometry::instance::Instance;
use crate::math::vector::V3;
use crate::geometry::laws::lemma_shape_refines;
use crate::geometry::shape::Shape;
use crate::geometry::sphere::Sphere;
use crate::hit_record::HitRecord;
use crate::math::ray::Ray;
use crate::scalar::{floor_quot, in_range, saturate, spec_div, spec_mul, Real, ONE};
use vstd::prelude::*;

verus! {

impl Shape {
    /// Every hit of this ray on the shape lies on the stretch of the ray
    /// that is inside the shape's box: no earlier than the ray enters the
    /// last of the three slabs and no later than it leaves the first.
    pub open spec fn hits_within_box(&self, ray: Ray, t_min: Real) -> bool {
        forall|rec: HitRecord|
            rec.ray == ray && rec.t_min == t_min && (#[trigger] self.spec_closest_hit(rec)).t
                < rec.t ==> self.bbox().enter(ray) <= self.spec_closest_hit(rec).t
                <= self.bbox().exit(ray)
    }
}

/// The ray crosses the box over a stretch that has a length and does not end
/// at the floor `t_min`. Where it does not, the slab test fails for want of
/// one unit of distance: the box is crossed in less than the smallest step,
/// or left exactly at the floor.
pub open spec fn is_crossed(b: BBox, ray: Ray, t_min: Real) -> bool {
    b.enter(ray) < b.exit(ray) && t_min < b.exit(ray)
}

/// A shape whose hits lie within its box hides behind the box only where
/// the ray does not cross the box.
pub proof fn lemma_conservative_where_crossed(shape: &Shape, ray: Ray, t_min: Real)
    requires
        shape.hits_within_box(ray, t_min),
        is_crossed(shape.bbox(), ray, t_min),
    ensures
        shape.box_is_conservative(ray, t_min),
{
    reveal(BBox::spec_hit);
    assert forall|rec: HitRecord|
        rec.ray == ray && rec.t_min == t_min && (#[trigger] shape.spec_closest_hit(rec)).t
            < rec.t implies shape.bbox().spec_hit(ray, t_min, rec.t) is Some by {
        lemma_shape_refines(shape, rec);
    }
}

/// Of two quotients with positive divisors the one that is smaller as a
/// fraction is no larger as a real.
pub proof fn lemma_floor_cross(n1: int, d1: int, n2: int, d2: int)
    requires
        d1 > 0,
        d2 > 0,
        n1 * d2 <= n2 * d1,
    ensures
        (n1 * ONE) / d1 <= (n2 * ONE) / d2,
{
    let q = (n1 * ONE) / d1;
    vstd::arithmetic::div_mod::lemma_fundamental_div_mod(n1 * ONE, d1);
    vstd::arithmetic::div_mod::lemma_mod_bound(n1 * ONE, d1);
    assert(q * d1 <= n1 * ONE) by (nonlinear_arith)
        requires
            n1 * ONE == d1 * q + (n1 * ONE) % d1,
            0 <= (n1 * ONE) % d1,
    ;
    assert(q * d2 <= n2 * ONE) by (nonlinear_arith)
        requires
            q * d1 <= n1 * ONE,
            n1 * d2 <= n2 * d1,
            d1 > 0,
            d2 > 0,
            ONE == 0x10_0000,
    ;
    vstd::arithmetic::div_mod::lemma_div_is_ordered(q * d2, n2 * ONE, d2);
    vstd::arithmetic::div_mod::lemma_div_multiples_vanish(q, d2);
    assert(q * d2 == d2 * q) by (nonlinear_arith);
}

/// A point of a line at no more than the distance `r` from the centre, seen
/// along one axis: where `a (P - C)` has the component `a co + n d` and that
/// component is at most `a r` in absolute value, the distance `n / a` lies
/// between the distances at which the line enters and leaves the slab from
/// `C - r` to `C + r`.
pub proof fn lemma_distance_within_slab(lo: Real, hi: Real, o: Real, d: Real, a: int, n: int)
    requires
        a > 0,
        lo <= hi,
        a * (lo - o) <= n * d <= a * (hi - o),
    ensures
        axis_enter(lo, hi, o, d) <= saturate(floor_quot(n * ONE, a)) <= axis_exit(lo, hi, o, d),
{
    let t = saturate(floor_quot(n * ONE, a));
    if d > 0 {
        assert((lo - o) * a <= n * d) by (nonlinear_arith)
            requires
                a * (lo - o) <= n * d,
        ;
        lemma_floor_cross(lo - o, d as int, n, a);
        assert(n * d <= (hi - o) * a) by (nonlinear_arith)
            requires
                n * d <= a * (hi - o),
        ;
        lemma_floor_cross(n, a, hi - o, d as int);
        assert(plane_distance(lo, o, d) == saturate(((lo - o) * ONE) / (d as int)));
        assert(plane_distance(hi, o, d) == saturate(((hi - o) * ONE) / (d as int)));
    } else if d < 0 {
        let e = -(d as int);
        assert((o - hi) * a <= n * e) by (nonlinear_arith)
            requires
                n * d <= a * (hi - o),
                e == -d,
        ;
        lemma_floor_cross(o - hi, e, n, a);
        assert(n * e <= (o - lo) * a) by (nonlinear_arith)
            requires
                a * (lo - o) <= n * d,
                e == -d,
        ;
        lemma_floor_cross(n, a, o - lo, e);
        assert(-((hi - o) * ONE) == (o - hi) * ONE) by (nonlinear_arith);
        assert(-((lo - o) * ONE) == (o - lo) * ONE) by (nonlinear_arith);
        assert(plane_distance(hi, o, d) == saturate(((o - hi) * ONE) / e));
        assert(plane_distance(lo, o, d) == saturate(((o - lo) * ONE) / e));
    } else {
        assert(n * d == 0) by (nonlinear_arith)
            requires
                d == 0,
        ;
        assert(lo <= o <= hi) by (nonlinear_arith)
            requires
                a > 0,
                a * (lo - o) <= 0 <= a * (hi - o),
        ;
    }
}

/// The square of `a c + n d`, term by term.
pub proof fn lemma_square_of_scaled_sum(a: int, c: int, n: int, d: int)
    ensures
        (a * c + n * d) * (a * c + n * d) == a * (a * (c * c)) + 2 * (a * (n * (c * d))) + n * (n
            * (d * d)),
{
    let p = a * c;
    let q = n * d;
    assert((p + q) * (p + q) == p * p + 2 * (p * q) + q * q) by (nonlinear_arith);
    assert(p * p == a * (a * (c * c))) by {
        vstd::arithmetic::mul::lemma_mul_is_associative(a, c, a * c);
        vstd::arithmetic::mul::lemma_mul_is_associative(c, a, c);
        vstd::arithmetic::mul::lemma_mul_is_commutative(c, a);
        vstd::arithmetic::mul::lemma_mul_is_associative(a, c, c);
    }
    assert(q * q == n * (n * (d * d))) by {
        vstd::arithmetic::mul::lemma_mul_is_associative(n, d, n * d);
        vstd::arithmetic::mul::lemma_mul_is_associative(d, n, d);
        vstd::arithmetic::mul::lemma_mul_is_commutative(d, n);
        vstd::arithmetic::mul::lemma_mul_is_associative(n, d, d);
    }
    assert(p * q == a * (n * (c * d))) by {
        vstd::arithmetic::mul::lemma_mul_is_associative(a, c, n * d);
        vstd::arithmetic::mul::lemma_mul_is_associative(c, n, d);
        vstd::arithmetic::mul::lemma_mul_is_commutative(c, n);
        vstd::arithmetic::mul::lemma_mul_is_associative(n, c, d);
    }
}

/// The algebra of a line and a sphere. A line through `O` with the
/// direction `D` meets the sphere of radius `r` around `C` at the distances
/// `n / a`, where `a = D·D`, `h = (O - C)·D` and `n = -h - s` or `-h + s`
/// for the root `s` of the discriminant. For a root `s` that is rounded down
/// the point at that distance is no further than `r` from `C`, so none of
/// its coordinates is: `a (P - C)` has components of at most `a r`.
pub proof fn lemma_chord_in_sphere(
    cox: int,
    coy: int,
    coz: int,
    dx: int,
    dy: int,
    dz: int,
    r: int,
    s: int,
    n: int,
)
    requires
        r >= 0,
        s * s <= (cox * dx + coy * dy + coz * dz) * (cox * dx + coy * dy + coz * dz) - (dx * dx + dy
            * dy + dz * dz) * (cox * cox + coy * coy + coz * coz - r * r),
        n == -(cox * dx + coy * dy + coz * dz) - s || n == -(cox * dx + coy * dy + coz * dz) + s,
    ensures
        ({
            let a = dx * dx + dy * dy + dz * dz;
            &&& -(a * r) <= a * cox + n * dx <= a * r
            &&& -(a * r) <= a * coy + n * dy <= a * r
            &&& -(a * r) <= a * coz + n * dz <= a * r
        }),
{
    let a = dx * dx + dy * dy + dz * dz;
    let h = cox * dx + coy * dy + coz * dz;
    let cc = cox * cox + coy * coy + coz * coz;
    let vx = a * cox + n * dx;
    let vy = a * coy + n * dy;
    let vz = a * coz + n * dz;
    assert(a >= 0) by (nonlinear_arith)
        requires
            a == dx * dx + dy * dy + dz * dz,
    ;
    lemma_square_of_scaled_sum(a, cox, n, dx);
    lemma_square_of_scaled_sum(a, coy, n, dy);
    lemma_square_of_scaled_sum(a, coz, n, dz);
    let sum = vx * vx + vy * vy + vz * vz;
    assert(a * (a * cc) == a * (a * (cox * cox)) + a * (a * (coy * coy)) + a * (a * (coz * coz)))
        by (nonlinear_arith)
        requires
            cc == cox * cox + coy * coy + coz * coz,
    ;
    assert(a * (n * h) == a * (n * (cox * dx)) + a * (n * (coy * dy)) + a * (n * (coz * dz)))
        by (nonlinear_arith)
        requires
            h == cox * dx + coy * dy + coz * dz,
    ;
    assert(n * (n * a) == n * (n * (dx * dx)) + n * (n * (dy * dy)) + n * (n * (dz * dz)))
        by (nonlinear_arith)
        requires
            a == dx * dx + dy * dy + dz * dz,
    ;
    assert(sum == a * (a * cc) + 2 * (a * (n * h)) + n * (n * a));
    let w = a * cc + 2 * (n * h) + n * n;
    assert(sum == a * w) by (nonlinear_arith)
        requires
            sum == a * (a * cc) + 2 * (a * (n * h)) + n * (n * a),
            w == a * cc + 2 * (n * h) + n * n,
    ;
    assert(2 * (n * h) + n * n == s * s - h * h) by (nonlinear_arith)
        requires
            n == -h - s || n == -h + s,
    ;
    assert(w <= a * (r * r)) by (nonlinear_arith)
        requires
            w == a * cc + 2 * (n * h) + n * n,
            2 * (n * h) + n * n == s * s - h * h,
            s * s <= h * h - a * (cc - r * r),
    ;
    assert(sum <= (a * r) * (a * r)) by (nonlinear_arith)
        requires
            sum == a * w,
            w <= a * (r * r),
            a >= 0,
    ;
    assert(vy * vy >= 0 && vz * vz >= 0 && vx * vx >= 0) by (nonlinear_arith);
    let m = a * r;
    assert(m >= 0) by (nonlinear_arith)
        requires
            m == a * r,
            a >= 0,
            r >= 0,
    ;
    assert(-m <= vx <= m) by (nonlinear_arith)
        requires
            vx * vx <= m * m,
            m >= 0,
    ;
    assert(-m <= vy <= m) by (nonlinear_arith)
        requires
            vy * vy <= m * m,
            m >= 0,
    ;
    assert(-m <= vz <= m) by (nonlinear_arith)
        requires
            vz * vz <= m * m,
            m >= 0,
    ;
}

/// A box as a shape is hit within its box: its hit is where the ray's
/// stretch inside that box begins.
pub proof fn lemma_cuboid_hits_within_box(shape: &Shape, ray: Ray, t_min: Real)
    requires
        shape is Cuboid,
    ensures
        shape.hits_within_box(ray, t_min),
{
    reveal(BBox::spec_hit);
    reveal(Cuboid::spec_closest_hit);
    let c = shape->Cuboid_0;
    assert forall|rec: HitRecord|
        rec.ray == ray && rec.t_min == t_min && (#[trigger] shape.spec_closest_hit(rec)).t
            < rec.t implies c.bbox.enter(ray) <= shape.spec_closest_hit(rec).t <= c.bbox.exit(
        ray,
    ) by {
        assert(shape.spec_closest_hit(rec) == c.spec_closest_hit(rec));
    }
}

impl Sphere {
    /// Nothing about the sphere and the ray is beyond the range of the
    /// numbers: the radius is not negative, the box is the cube around the
    /// sphere and lies within the bounds, and so does the way from the
    /// centre to the ray's origin.
    pub open spec fn fits(&self, ray: Ray) -> bool {
        &&& self.radius >= 0
        &&& self.bbox.min.x == self.center.x - self.radius
        &&& self.bbox.min.y == self.center.y - self.radius
        &&& self.bbox.min.z == self.center.z - self.radius
        &&& self.bbox.max.x == self.center.x + self.radius
        &&& self.bbox.max.y == self.center.y + self.radius
        &&& self.bbox.max.z == self.center.z + self.radius
        &&& in_range(ray.origin.x - self.center.x)
        &&& in_range(ray.origin.y - self.center.y)
        &&& in_range(ray.origin.z - self.center.z)
    }
}

/// A sphere is hit within its box: whatever distance it gives a record, the
/// ray is inside the cube around the sphere there.
pub proof fn lemma_sphere_hits_within_box(shape: &Shape, ray: Ray, t_min: Real)
    requires
        shape matches Shape::Sphere(s) && s.fits(ray),
    ensures
        shape.hits_within_box(ray, t_min),
{
    reveal(Sphere::spec_closest_hit);
    let s = shape->Sphere_0;
    let b = s.bbox;
    let q = s.quadratic(ray);
    let co = ray.origin.spec_minus(s.center);
    let d = ray.direction;
    assert(co.x == ray.origin.x - s.center.x);
    assert(co.y == ray.origin.y - s.center.y);
    assert(co.z == ray.origin.z - s.center.z);
    assert forall|rec: HitRecord|
        rec.ray == ray && rec.t_min == t_min && (#[trigger] shape.spec_closest_hit(rec)).t
            < rec.t implies b.enter(ray) <= shape.spec_closest_hit(rec).t <= b.exit(ray) by {
        assert(shape.spec_closest_hit(rec) == s.spec_closest_hit(rec));
        let t = s.spec_closest_hit(rec).t;
        assert(q.solvable());
        let sq = crate::scalar::isqrt(q.discriminant());
        crate::scalar::lemma_isqrt_exists(q.discriminant());
        let n = if t == q.near_root() {
            -q.h - sq
        } else {
            -q.h + sq
        };
        assert(t == saturate(floor_quot(n * ONE, q.a)));
        assert(q.a >= 0) by (nonlinear_arith)
            requires
                q.a == d.x * d.x + d.y * d.y + d.z * d.z,
        ;
        lemma_chord_in_sphere(
            co.x as int,
            co.y as int,
            co.z as int,
            d.x as int,
            d.y as int,
            d.z as int,
            s.radius as int,
            sq,
            n,
        );
        let a = q.a;
        let r = s.radius as int;
        assert(a * (b.min.x - ray.origin.x) == -(a * r) - a * co.x) by (nonlinear_arith)
            requires
                b.min.x - ray.origin.x == -r - co.x,
        ;
        assert(a * (b.max.x - ray.origin.x) == a * r - a * co.x) by (nonlinear_arith)
            requires
                b.max.x - ray.origin.x == r - co.x,
        ;
        assert(a * (b.min.y - ray.origin.y) == -(a * r) - a * co.y) by (nonlinear_arith)
            requires
                b.min.y - ray.origin.y == -r - co.y,
        ;
        assert(a * (b.max.y - ray.origin.y) == a * r - a * co.y) by (nonlinear_arith)
            requires
                b.max.y - ray.origin.y == r - co.y,
        ;
        assert(a * (b.min.z - ray.origin.z) == -(a * r) - a * co.z) by (nonlinear_arith)
            requires
                b.min.z - ray.origin.z == -r - co.z,
        ;
        assert(a * (b.max.z - ray.origin.z) == a * r - a * co.z) by (nonlinear_arith)
            requires
                b.max.z - ray.origin.z == r - co.z,
        ;
        lemma_distance_within_slab(b.min.x, b.max.x, ray.origin.x, d.x, a, n);
        lemma_distance_within_slab(b.min.y, b.max.y, ray.origin.y, d.y, a, n);
        lemma_distance_within_slab(b.min.z, b.max.z, ray.origin.z, d.z, a, n);
    }
}

/// A sphere hides behind its box only where the ray does not cross the box.
pub proof fn lemma_sphere_box_is_conservative(shape: &Shape, ray: Ray, t_min: Real)
    requires
        shape matches Shape::Sphere(s) && s.fits(ray),
        is_crossed(shape.bbox(), ray, t_min),
    ensures
        shape.box_is_conservative(ray, t_min),
{
    lemma_sphere_hits_within_box(shape, ray, t_min);
    lemma_conservative_where_crossed(shape, ray, t_min);
}

/// An instance is hit within its box where the shape it wraps is hit within
/// its own box by the ray carried into its space, and where the instance's
/// box is entered no later and left no earlier by the ray than the wrapped
/// shape's box is by the carried ray.
pub proof fn lemma_instance_hits_within_box(shape: &Shape, ray: Ray, t_min: Real)
    requires
        shape matches Shape::Instance(i) && i.shape.hits_within_box(i.local_ray(ray), t_min)
            && i.bbox.enter(ray) <= i.shape.bbox().enter(i.local_ray(ray)) && i.shape.bbox().exit(
            i.local_ray(ray),
        ) <= i.bbox.exit(ray),
    ensures
        shape.hits_within_box(ray, t_min),
{
    let inst = shape->Instance_0;
    let local = inst.local_ray(ray);
    assert forall|rec: HitRecord|
        rec.ray == ray && rec.t_min == t_min && (#[trigger] shape.spec_closest_hit(rec)).t
            < rec.t implies inst.bbox.enter(ray) <= shape.spec_closest_hit(rec).t <= inst.bbox.exit(
        ray,
    ) by {
        let rec_local = HitRecord { ray: local, ..rec };
        assert(shape.spec_closest_hit(rec) == inst.spec_closest_hit(rec));
        let inner = inst.shape.spec_closest_hit(rec_local);
        assert(inner.t < rec_local.t);
        assert(shape.spec_closest_hit(rec).t == inner.t);
    }
}

impl Instance {
    /// The instance is the wrapped shape moved by `translation` and nothing
    /// else, and nothing about it and the ray is beyond the range of the
    /// numbers: the way back is to take `translation` off, and the box is
    /// the wrapped shape's box moved by `translation`.
    pub open spec fn is_moved_by(&self, translation: V3, ray: Ray) -> bool {
        &&& self.inv_transform.x == (V3 { x: ONE, y: 0, z: 0 })
        &&& self.inv_transform.y == (V3 { x: 0, y: ONE, z: 0 })
        &&& self.inv_transform.z == (V3 { x: 0, y: 0, z: ONE })
        &&& self.inv_transform.t.x == -translation.x
        &&& self.inv_transform.t.y == -translation.y
        &&& self.inv_transform.t.z == -translation.z
        &&& self.bbox.min.x == self.shape.bbox().min.x + translation.x
        &&& self.bbox.min.y == self.shape.bbox().min.y + translation.y
        &&& self.bbox.min.z == self.shape.bbox().min.z + translation.z
        &&& self.bbox.max.x == self.shape.bbox().max.x + translation.x
        &&& self.bbox.max.y == self.shape.bbox().max.y + translation.y
        &&& self.bbox.max.z == self.shape.bbox().max.z + translation.z
        &&& ray.wf()
        &&& in_range(ray.origin.x - translation.x)
        &&& in_range(ray.origin.y - translation.y)
        &&& in_range(ray.origin.z - translation.z)
    }
}

/// The dot product with an axis of length one picks a component.
pub proof fn lemma_dot_with_axis(v: V3)
    requires
        v.wf(),
    ensures
        (V3 { x: ONE, y: 0, z: 0 }).spec_dot(v) == v.x,
        (V3 { x: 0, y: ONE, z: 0 }).spec_dot(v) == v.y,
        (V3 { x: 0, y: 0, z: ONE }).spec_dot(v) == v.z,
{
    vstd::arithmetic::div_mod::lemma_div_multiples_vanish(v.x as int, ONE as int);
    vstd::arithmetic::div_mod::lemma_div_multiples_vanish(v.y as int, ONE as int);
    vstd::arithmetic::div_mod::lemma_div_multiples_vanish(v.z as int, ONE as int);
    assert(0 * v.x == 0 && 0 * v.y == 0 && 0 * v.z == 0);
}

/// An instance that is moved and nothing else is hit within its box where
/// the shape it wraps is hit within its own: to move the box and to move
/// the ray back comes to the same.
pub proof fn lemma_moved_instance_hits_within_box(
    shape: &Shape,
    translation: V3,
    ray: Ray,
    t_min: Real,
)
    requires
        shape matches Shape::Instance(i) && i.is_moved_by(translation, ray) && i.shape.hits_within_box(
            i.local_ray(ray),
            t_min,
        ),
    ensures
        shape.hits_within_box(ray, t_min),
{
    let inst = shape->Instance_0;
    let local = inst.local_ray(ray);
    let inner = inst.shape.bbox();
    let outer = inst.bbox;
    lemma_dot_with_axis(ray.origin);
    lemma_dot_with_axis(ray.direction);
    assert(local.direction == ray.direction);
    assert(local.origin.x == ray.origin.x - translation.x);
    assert(local.origin.y == ray.origin.y - translation.y);
    assert(local.origin.z == ray.origin.z - translation.z);
    assert(outer.min.x - ray.origin.x == inner.min.x - local.origin.x);
    assert(outer.max.x - ray.origin.x == inner.max.x - local.origin.x);
    assert(outer.min.y - ray.origin.y == inner.min.y - local.origin.y);
    assert(outer.max.y - ray.origin.y == inner.max.y - local.origin.y);
    assert(outer.min.z - ray.origin.z == inner.min.z - local.origin.z);
    assert(outer.max.z - ray.origin.z == inner.max.z - local.origin.z);
    assert(outer.enter(ray) == inner.enter(local));
    assert(outer.exit(ray) == inner.exit(local));
    lemma_instance_hits_within_box(shape, ray, t_min);
}

/// The rotation that leaves every vector as it is.
pub open spec fn no_rotation() -> Rotation3 {
    Rotation3 {
        x: V3 { x: ONE, y: 0, z: 0 },
        y: V3 { x: 0, y: ONE, z: 0 },
        z: V3 { x: 0, y: 0, z: ONE },
    }
}

/// The scale that leaves every vector as it is.
pub open spec fn no_scale() -> V3 {
    V3 { x: ONE, y: ONE, z: ONE }
}

/// An instance that is made with no rotation and no scale is moved and
/// nothing else: the way back takes the translation off, and the box is the
/// wrapped shape's box moved by the translation.
pub proof fn lemma_translation_alone(b: BBox, translation: V3)
    requires
        b.wf(),
        translation.wf(),
        in_range(b.min.x + translation.x) && in_range(b.max.x + translation.x),
        in_range(b.min.y + translation.y) && in_range(b.max.y + translation.y),
        in_range(b.min.z + translation.z) && in_range(b.max.z + translation.z),
    ensures
        Transform::spec_compose_inverse(translation, no_rotation(), no_scale()) == (Transform {
            x: V3 { x: ONE, y: 0, z: 0 },
            y: V3 { x: 0, y: ONE, z: 0 },
            z: V3 { x: 0, y: 0, z: ONE },
            t: V3 {
                x: (-translation.x) as Real,
                y: (-translation.y) as Real,
                z: (-translation.z) as Real,
            },
        }),
        b.spec_transform(Transform::spec_compose(translation, no_rotation(), no_scale())).min == (V3 {
            x: (b.min.x + translation.x) as Real,
            y: (b.min.y + translation.y) as Real,
            z: (b.min.z + translation.z) as Real,
        }),
        b.spec_transform(Transform::spec_compose(translation, no_rotation(), no_scale())).max == (V3 {
            x: (b.max.x + translation.x) as Real,
            y: (b.max.y + translation.y) as Real,
            z: (b.max.z + translation.z) as Real,
        }),
{
    let one = ONE as int;
    assert(spec_mul(ONE, ONE) == ONE && spec_mul(0, ONE) == 0 && spec_div(ONE, ONE) == ONE) by {
        vstd::arithmetic::div_mod::lemma_div_multiples_vanish(one, one);
        assert(ONE * ONE == one * one);
        assert(0 * ONE == 0);
        vstd::arithmetic::div_mod::lemma_div_basics_1(one);
    }
    let back = Transform::spec_inverse_linear(no_rotation(), no_scale());
    assert(back.x == (V3 { x: ONE, y: 0, z: 0 }));
    assert(back.y == (V3 { x: 0, y: ONE, z: 0 }));
    assert(back.z == (V3 { x: 0, y: 0, z: ONE }));
    lemma_dot_with_axis(translation);
    let m = Transform::spec_compose(translation, no_rotation(), no_scale());
    assert(m.x == (V3 { x: ONE, y: 0, z: 0 }));
    assert(m.y == (V3 { x: 0, y: ONE, z: 0 }));
    assert(m.z == (V3 { x: 0, y: 0, z: ONE }));
    assert forall|k: int| 0 <= k < 8 implies #[trigger] m.spec_transform_point(b.corner(k)) == (V3 {
        x: (b.corner(k).x + translation.x) as Real,
        y: (b.corner(k).y + translation.y) as Real,
        z: (b.corner(k).z + translation.z) as Real,
    }) by {
        lemma_dot_with_axis(b.corner(k));
    }
    let img = |k: int| m.spec_transform_point(b.corner(k));
    assert(b.image_min(m, 1) == img(0));
    assert(b.image_min(m, 2) == min3(b.image_min(m, 1), img(1)));
    assert(b.image_min(m, 3) == min3(b.image_min(m, 2), img(2)));
    assert(b.image_min(m, 4) == min3(b.image_min(m, 3), img(3)));
    assert(b.image_min(m, 5) == min3(b.image_min(m, 4), img(4)));
    assert(b.image_min(m, 6) == min3(b.image_min(m, 5), img(5)));
    assert(b.image_min(m, 7) == min3(b.image_min(m, 6), img(6)));
    assert(b.image_min(m, 8) == min3(b.image_min(m, 7), img(7)));
    assert(b.image_max(m, 1) == img(0));
    assert(b.image_max(m, 2) == max3(b.image_max(m, 1), img(1)));
    assert(b.image_max(m, 3) == max3(b.image_max(m, 2), img(2)));
    assert(b.image_max(m, 4) == max3(b.image_max(m, 3), img(3)));
    assert(b.image_max(m, 5) == max3(b.image_max(m, 4), img(4)));
    assert(b.image_max(m, 6) == max3(b.image_max(m, 5), img(5)));
    assert(b.image_max(m, 7) == max3(b.image_max(m, 6), img(6)));
    assert(b.image_max(m, 8) == max3(b.image_max(m, 7), img(7)));
    assert(b.corner(0) == b.min && b.corner(7) == b.max);
}

} // verus!
