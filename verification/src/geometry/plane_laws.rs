//! Where a ray meets the plane of a triangle: the algebra of Cramer's rule.
use crate::geometry::bbox::{axis_enter, axis_exit, max3, min3};
use crate::geometry::box_laws::{
    is_crossed, lemma_conservative_where_crossed, lemma_distance_within_slab,
};
use crate::geometry::quad::{spec_quad_box, Quad};
use crate::geometry::shape::Shape;
use crate::geometry::triangle::{
    det_ratio, spec_box_around, spec_high, spec_low, spec_pad, spec_solve_plane, Triangle,
    PARALLEL_LIMIT,
};
use crate::hit_record::HitRecord;
use crate::math::ray::Ray;
use crate::math::vector::{spec_det3, V3};
use crate::scalar::{floor_quot, in_range, saturate, Real, ONE};
use vstd::prelude::*;

verus! {

/// The determinant, expanded along the second row.
pub proof fn lemma_det3_along_y(u: V3, v: V3, w: V3)
    ensures
        spec_det3(u, v, w) == -(u.y * (v.x * w.z - v.z * w.x)) + v.y * (u.x * w.z - u.z * w.x) - w.y * (u.x * v.z - u.z * v.x),
{
    let (ux, uy, uz) = (u.x as int, u.y as int, u.z as int);
    let (vx, vy, vz) = (v.x as int, v.y as int, v.z as int);
    let (wx, wy, wz) = (w.x as int, w.y as int, w.z as int);
    assert(ux * (vy * wz - vz * wy) == ux * (vy * wz) - ux * (vz * wy)) by (nonlinear_arith);
    assert(ux * (vy * wz) == ux * (vy * wz)) by (nonlinear_arith);
    assert(ux * (vz * wy) == ux * (vz * wy)) by (nonlinear_arith);
    assert(vx * (uy * wz - uz * wy) == vx * (uy * wz) - vx * (uz * wy)) by (nonlinear_arith);
    assert(vx * (uy * wz) == uy * (vx * wz)) by (nonlinear_arith);
    assert(vx * (uz * wy) == uz * (vx * wy)) by (nonlinear_arith);
    assert(wx * (uy * vz - uz * vy) == wx * (uy * vz) - wx * (uz * vy)) by (nonlinear_arith);
    assert(wx * (uy * vz) == uy * (vz * wx)) by (nonlinear_arith);
    assert(wx * (uz * vy) == uz * (vy * wx)) by (nonlinear_arith);
    assert(uy * (vx * wz - vz * wx) == uy * (vx * wz) - uy * (vz * wx)) by (nonlinear_arith);
    assert(uy * (vx * wz) == uy * (vx * wz)) by (nonlinear_arith);
    assert(uy * (vz * wx) == uy * (vz * wx)) by (nonlinear_arith);
    assert(vy * (ux * wz - uz * wx) == vy * (ux * wz) - vy * (uz * wx)) by (nonlinear_arith);
    assert(vy * (ux * wz) == ux * (vy * wz)) by (nonlinear_arith);
    assert(vy * (uz * wx) == uz * (vy * wx)) by (nonlinear_arith);
    assert(wy * (ux * vz - uz * vx) == wy * (ux * vz) - wy * (uz * vx)) by (nonlinear_arith);
    assert(wy * (ux * vz) == ux * (vz * wy)) by (nonlinear_arith);
    assert(wy * (uz * vx) == uz * (vx * wy)) by (nonlinear_arith);
}

/// The determinant, expanded along the third row.
pub proof fn lemma_det3_along_z(u: V3, v: V3, w: V3)
    ensures
        spec_det3(u, v, w) == u.z * (v.x * w.y - v.y * w.x) - v.z * (u.x * w.y - u.y * w.x) + w.z * (u.x * v.y - u.y * v.x),
{
    let (ux, uy, uz) = (u.x as int, u.y as int, u.z as int);
    let (vx, vy, vz) = (v.x as int, v.y as int, v.z as int);
    let (wx, wy, wz) = (w.x as int, w.y as int, w.z as int);
    assert(ux * (vy * wz - vz * wy) == ux * (vy * wz) - ux * (vz * wy)) by (nonlinear_arith);
    assert(ux * (vy * wz) == ux * (vy * wz)) by (nonlinear_arith);
    assert(ux * (vz * wy) == ux * (vz * wy)) by (nonlinear_arith);
    assert(vx * (uy * wz - uz * wy) == vx * (uy * wz) - vx * (uz * wy)) by (nonlinear_arith);
    assert(vx * (uy * wz) == uy * (vx * wz)) by (nonlinear_arith);
    assert(vx * (uz * wy) == uz * (vx * wy)) by (nonlinear_arith);
    assert(wx * (uy * vz - uz * vy) == wx * (uy * vz) - wx * (uz * vy)) by (nonlinear_arith);
    assert(wx * (uy * vz) == uy * (vz * wx)) by (nonlinear_arith);
    assert(wx * (uz * vy) == uz * (vy * wx)) by (nonlinear_arith);
    assert(uz * (vx * wy - vy * wx) == uz * (vx * wy) - uz * (vy * wx)) by (nonlinear_arith);
    assert(uz * (vx * wy) == uz * (vx * wy)) by (nonlinear_arith);
    assert(uz * (vy * wx) == uz * (vy * wx)) by (nonlinear_arith);
    assert(vz * (ux * wy - uy * wx) == vz * (ux * wy) - vz * (uy * wx)) by (nonlinear_arith);
    assert(vz * (ux * wy) == ux * (vz * wy)) by (nonlinear_arith);
    assert(vz * (uy * wx) == uy * (vz * wx)) by (nonlinear_arith);
    assert(wz * (ux * vy - uy * vx) == wz * (ux * vy) - wz * (uy * vx)) by (nonlinear_arith);
    assert(wz * (ux * vy) == ux * (vy * wz)) by (nonlinear_arith);
    assert(wz * (uy * vx) == uy * (vx * wz)) by (nonlinear_arith);
}

/// Cramer's rule in one coordinate, for determinants that are expanded
/// along that coordinate: with the minors `m` of the other two coordinates,
/// the determinant of `u`, `v`, `w` times `p` is the sum of `u`, `v` and
/// `w`, each times the determinant in which `p` has taken its place.
pub proof fn lemma_cramer_one(
    u: int,
    v: int,
    w: int,
    p: int,
    m_vw: int,
    m_uw: int,
    m_uv: int,
    m_pw: int,
    m_pv: int,
    m_up: int,
)
    ensures
        (u * m_vw - v * m_uw + w * m_uv) * p == (p * m_vw - v * m_pw + w * m_pv) * u + (u * m_pw - p
            * m_uw + w * m_up) * v + (-(u * m_pv) - v * m_up + p * m_uv) * w,
{
    assert((u * m_vw - v * m_uw + w * m_uv) * p == (u * m_vw) * p - (v * m_uw) * p + (w * m_uv) * p) by (nonlinear_arith);
    assert((u * m_vw) * p == m_vw * (p * u)) by (nonlinear_arith);
    assert((v * m_uw) * p == m_uw * (p * v)) by (nonlinear_arith);
    assert((w * m_uv) * p == m_uv * (p * w)) by (nonlinear_arith);
    assert((p * m_vw - v * m_pw + w * m_pv) * u == (p * m_vw) * u - (v * m_pw) * u + (w * m_pv) * u) by (nonlinear_arith);
    assert((p * m_vw) * u == m_vw * (p * u)) by (nonlinear_arith);
    assert((v * m_pw) * u == m_pw * (u * v)) by (nonlinear_arith);
    assert((w * m_pv) * u == m_pv * (u * w)) by (nonlinear_arith);
    assert((u * m_pw - p * m_uw + w * m_up) * v == (u * m_pw) * v - (p * m_uw) * v + (w * m_up) * v) by (nonlinear_arith);
    assert((u * m_pw) * v == m_pw * (u * v)) by (nonlinear_arith);
    assert((p * m_uw) * v == m_uw * (p * v)) by (nonlinear_arith);
    assert((w * m_up) * v == m_up * (v * w)) by (nonlinear_arith);
    assert((-(u * m_pv) - v * m_up + p * m_uv) * w == -((u * m_pv) * w) - (v * m_up) * w + (p * m_uv) * w) by (nonlinear_arith);
    assert((u * m_pv) * w == m_pv * (u * w)) by (nonlinear_arith);
    assert((v * m_up) * w == m_up * (v * w)) by (nonlinear_arith);
    assert((p * m_uv) * w == m_uv * (p * w)) by (nonlinear_arith);
}

/// Cramer's rule: the determinant of `u`, `v`, `w` times `p` is the sum of
/// `u`, `v` and `w`, each times the determinant in which `p` has taken its
/// place.
pub proof fn lemma_cramer(u: V3, v: V3, w: V3, p: V3)
    ensures
        spec_det3(u, v, w) * p.x == spec_det3(p, v, w) * u.x + spec_det3(u, p, w) * v.x + spec_det3(
            u,
            v,
            p,
        ) * w.x,
        spec_det3(u, v, w) * p.y == spec_det3(p, v, w) * u.y + spec_det3(u, p, w) * v.y + spec_det3(
            u,
            v,
            p,
        ) * w.y,
        spec_det3(u, v, w) * p.z == spec_det3(p, v, w) * u.z + spec_det3(u, p, w) * v.z + spec_det3(
            u,
            v,
            p,
        ) * w.z,
{
    let d = spec_det3(u, v, w);
    let b = spec_det3(p, v, w);
    let g = spec_det3(u, p, w);
    let t = spec_det3(u, v, p);
    let (ux, uy, uz) = (u.x as int, u.y as int, u.z as int);
    let (vx, vy, vz) = (v.x as int, v.y as int, v.z as int);
    let (wx, wy, wz) = (w.x as int, w.y as int, w.z as int);
    let (px, py, pz) = (p.x as int, p.y as int, p.z as int);
    // along x
    {
        let m_vw = vy * wz - vz * wy;
        let m_uw = uy * wz - uz * wy;
        let m_uv = uy * vz - uz * vy;
        let m_pw = py * wz - pz * wy;
        let m_pv = py * vz - pz * vy;
        let m_up = uy * pz - uz * py;
        let m_vp = vy * pz - vz * py;
        assert(m_vp == -m_pv) by (nonlinear_arith)
            requires
                m_vp == vy * pz - vz * py,
                m_pv == py * vz - pz * vy,
        ;
        assert(ux * m_vp == -(ux * m_pv)) by (nonlinear_arith)
            requires
                m_vp == -m_pv,
        ;
        lemma_cramer_one(ux, vx, wx, px, m_vw, m_uw, m_uv, m_pw, m_pv, m_up);
        assert(d == ux * m_vw - vx * m_uw + wx * m_uv);
        assert(b == px * m_vw - vx * m_pw + wx * m_pv);
        assert(g == ux * m_pw - px * m_uw + wx * m_up);
        assert(t == ux * m_vp - vx * m_up + px * m_uv);
        assert(d * px == b * ux + g * vx + t * wx);
    }
    // along y
    {
        lemma_det3_along_y(u, v, w);
        lemma_det3_along_y(p, v, w);
        lemma_det3_along_y(u, p, w);
        lemma_det3_along_y(u, v, p);
        let m_vw = vx * wz - vz * wx;
        let m_uw = ux * wz - uz * wx;
        let m_uv = ux * vz - uz * vx;
        let m_pw = px * wz - pz * wx;
        let m_pv = px * vz - pz * vx;
        let m_up = ux * pz - uz * px;
        let m_vp = vx * pz - vz * px;
        assert(m_vp == -m_pv) by (nonlinear_arith)
            requires
                m_vp == vx * pz - vz * px,
                m_pv == px * vz - pz * vx,
        ;
        assert(uy * m_vp == -(uy * m_pv)) by (nonlinear_arith)
            requires
                m_vp == -m_pv,
        ;
        lemma_cramer_one(uy, vy, wy, py, m_vw, m_uw, m_uv, m_pw, m_pv, m_up);
        let dn = uy * m_vw - vy * m_uw + wy * m_uv;
        let bn = py * m_vw - vy * m_pw + wy * m_pv;
        let gn = uy * m_pw - py * m_uw + wy * m_up;
        let tn = -(uy * m_pv) - vy * m_up + py * m_uv;
        assert(d == -dn);
        assert(b == -bn);
        assert(g == -gn);
        assert(t == -tn);
        assert(dn * py == bn * uy + gn * vy + tn * wy);
        assert(d * py == b * uy + g * vy + t * wy) by (nonlinear_arith)
            requires
                dn * py == bn * uy + gn * vy + tn * wy,
                d == -dn,
                b == -bn,
                g == -gn,
                t == -tn,
        ;
    }
    // along z
    {
        lemma_det3_along_z(u, v, w);
        lemma_det3_along_z(p, v, w);
        lemma_det3_along_z(u, p, w);
        lemma_det3_along_z(u, v, p);
        let m_vw = vx * wy - vy * wx;
        let m_uw = ux * wy - uy * wx;
        let m_uv = ux * vy - uy * vx;
        let m_pw = px * wy - py * wx;
        let m_pv = px * vy - py * vx;
        let m_up = ux * py - uy * px;
        let m_vp = vx * py - vy * px;
        assert(m_vp == -m_pv) by (nonlinear_arith)
            requires
                m_vp == vx * py - vy * px,
                m_pv == px * vy - py * vx,
        ;
        assert(uz * m_vp == -(uz * m_pv)) by (nonlinear_arith)
            requires
                m_vp == -m_pv,
        ;
        lemma_cramer_one(uz, vz, wz, pz, m_vw, m_uw, m_uv, m_pw, m_pv, m_up);
        assert(d == uz * m_vw - vz * m_uw + wz * m_uv);
        assert(b == pz * m_vw - vz * m_pw + wz * m_pv);
        assert(g == uz * m_pw - pz * m_uw + wz * m_up);
        assert(t == uz * m_vp - vz * m_up + pz * m_uv);
        assert(d * pz == b * uz + g * vz + t * wz);
    }
}

/// A quotient that is not negative when rounded down has a dividend that is
/// not negative, and it is less than one step below the true quotient.
pub proof fn lemma_ratio_bounds(n: int, d: int)
    requires
        d > 0,
    ensures
        (n * ONE) / d >= 0 ==> n >= 0,
        n * ONE < d * ((n * ONE) / d + 1),
{
    let q = (n * ONE) / d;
    let r = (n * ONE) % d;
    vstd::arithmetic::div_mod::lemma_fundamental_div_mod(n * ONE, d);
    vstd::arithmetic::div_mod::lemma_mod_bound(n * ONE, d);
    assert(d * (q + 1) == d * q + d) by (nonlinear_arith);
    if q >= 0 {
        assert(d * q >= 0) by (nonlinear_arith)
            requires
                d > 0,
                q >= 0,
        ;
        assert(n >= 0) by (nonlinear_arith)
            requires
                n * ONE >= 0,
                ONE == 0x10_0000,
        ;
    }
}

/// A point that is blended of three others with weights that are off by
/// rounding lies no further out than the padding reaches: for weights `b`
/// and `g` of the second and the third point, in units of `dp`, the first
/// having the rest, and for the distances `a0`, `b0`, `c0` of the three
/// points from the padded end of the box.
pub proof fn lemma_blend_bound(
    dp: int,
    b: int,
    g: int,
    a0: int,
    b0: int,
    c0: int,
    pad: int,
    e: int,
)
    requires
        dp > 0,
        b >= 0,
        g >= 0,
        (b + g) * ONE < dp * (ONE + 2),
        0 <= pad <= a0 <= e + pad,
        pad <= b0,
        pad <= c0,
        0 <= e,
        2 * e <= pad * ONE,
    ensures
        (dp - b - g) * a0 + b * b0 + g * c0 >= 0,
{
    let w = dp - b - g;
    assert(b * b0 >= b * pad) by (nonlinear_arith)
        requires
            b >= 0,
            b0 >= pad,
    ;
    assert(g * c0 >= g * pad) by (nonlinear_arith)
        requires
            g >= 0,
            c0 >= pad,
    ;
    if w >= 0 {
        assert(w * a0 >= 0) by (nonlinear_arith)
            requires
                w >= 0,
                a0 >= 0,
        ;
        assert(b * pad >= 0 && g * pad >= 0) by (nonlinear_arith)
            requires
                b >= 0,
                g >= 0,
                pad >= 0,
        ;
    } else {
        let n = -w;
        assert(w * a0 >= w * (e + pad)) by (nonlinear_arith)
            requires
                w < 0,
                a0 <= e + pad,
        ;
        assert(w * (e + pad) + b * pad + g * pad == dp * pad - n * e) by (nonlinear_arith)
            requires
                w == dp - b - g,
                n == -w,
        ;
        assert(n * ONE < 2 * dp) by (nonlinear_arith)
            requires
                n == b + g - dp,
                (b + g) * ONE < dp * (ONE + 2),
        ;
        assert((n * e) * ONE <= (2 * dp) * e) by (nonlinear_arith)
            requires
                n * ONE < 2 * dp,
                e >= 0,
        ;
        assert((2 * dp) * e <= (dp * pad) * ONE) by (nonlinear_arith)
            requires
                2 * e <= pad * ONE,
                dp > 0,
        ;
        assert(n * e <= dp * pad) by (nonlinear_arith)
            requires
                (n * e) * ONE <= (dp * pad) * ONE,
                ONE == 0x10_0000,
        ;
    }
}

/// The padding is wide enough for the rounding: twice the extent is no more
/// than a million times the padding.
pub proof fn lemma_pad_is_wide(e: int)
    requires
        e >= 0,
    ensures
        spec_pad(e) >= 1,
        2 * e <= spec_pad(e) * ONE,
{
    vstd::arithmetic::div_mod::lemma_fundamental_div_mod(e, 0x4_0000);
    vstd::arithmetic::div_mod::lemma_mod_bound(e, 0x4_0000);
    vstd::arithmetic::div_mod::lemma_div_pos_is_pos(e, 0x4_0000);
}

/// Along one axis: the point where the ray meets the plane, blended of the
/// three corners with rounded weights, lies between the two padded ends of
/// the box, so the distance of the hit lies between the distances at which
/// the ray enters and leaves the slab.
pub proof fn lemma_plane_axis(
    ax: Real,
    bx: Real,
    cx: Real,
    ox: Real,
    dx: Real,
    lo: Real,
    hi: Real,
    dp: int,
    b: int,
    g: int,
    tp: int,
)
    requires
        dp > 0,
        b >= 0,
        g >= 0,
        (b + g) * ONE < dp * (ONE + 2),
        dp * (ax - ox) == b * (ax - bx) + g * (ax - cx) + tp * dx,
        lo == spec_low(min3x(ax, bx, cx), max3x(ax, bx, cx)),
        hi == spec_high(min3x(ax, bx, cx), max3x(ax, bx, cx)),
    ensures
        axis_enter(lo, hi, ox, dx) <= saturate(floor_quot(tp * ONE, dp)) <= axis_exit(
            lo,
            hi,
            ox,
            dx,
        ),
{
    let m_lo = min3x(ax, bx, cx) as int;
    let m_hi = max3x(ax, bx, cx) as int;
    let e = m_hi - m_lo;
    let pad = spec_pad(e);
    lemma_pad_is_wide(e);
    let w = dp - b - g;
    lemma_blend_bound(dp, b, g, ax - lo, bx - lo, cx - lo, pad, e);
    lemma_blend_bound(dp, b, g, hi - ax, hi - bx, hi - cx, pad, e);
    let s_lo = w * (ax - lo) + b * (bx - lo) + g * (cx - lo);
    let s_hi = w * (hi - ax) + b * (hi - bx) + g * (hi - cx);
    assert(s_lo == dp * (ax - lo) - b * (ax - bx) - g * (ax - cx)) by (nonlinear_arith)
        requires
            s_lo == w * (ax - lo) + b * (bx - lo) + g * (cx - lo),
            w == dp - b - g,
    ;
    assert(s_hi == dp * (hi - ax) + b * (ax - bx) + g * (ax - cx)) by (nonlinear_arith)
        requires
            s_hi == w * (hi - ax) + b * (hi - bx) + g * (hi - cx),
            w == dp - b - g,
    ;
    assert(dp * (lo - ox) == tp * dx - s_lo) by (nonlinear_arith)
        requires
            dp * (ax - ox) == b * (ax - bx) + g * (ax - cx) + tp * dx,
            s_lo == dp * (ax - lo) - b * (ax - bx) - g * (ax - cx),
    ;
    assert(dp * (hi - ox) == tp * dx + s_hi) by (nonlinear_arith)
        requires
            dp * (ax - ox) == b * (ax - bx) + g * (ax - cx) + tp * dx,
            s_hi == dp * (hi - ax) + b * (ax - bx) + g * (ax - cx),
    ;
    lemma_distance_within_slab(lo, hi, ox, dx, dp, tp);
}

/// The smallest of three reals.
pub open spec fn min3x(a: Real, b: Real, c: Real) -> Real {
    let ab = if a <= b { a } else { b };
    if ab <= c { ab } else { c }
}

/// The largest of three reals.
pub open spec fn max3x(a: Real, b: Real, c: Real) -> Real {
    let ab = if a >= b { a } else { b };
    if ab >= c { ab } else { c }
}

impl Triangle {
    /// Nothing about the triangle and the ray is beyond the range of the
    /// numbers: the ways between the corners and from the ray's origin to
    /// the first corner are, and the box is the padded box around the
    /// corners and lies within the bounds.
    pub open spec fn fits(&self, ray: Ray) -> bool {
        &&& in_range(self.a.x - self.b.x) && in_range(self.a.y - self.b.y) && in_range(
            self.a.z - self.b.z,
        )
        &&& in_range(self.a.x - self.c.x) && in_range(self.a.y - self.c.y) && in_range(
            self.a.z - self.c.z,
        )
        &&& in_range(self.a.x - ray.origin.x) && in_range(self.a.y - ray.origin.y) && in_range(
            self.a.z - ray.origin.z,
        )
        &&& self.bbox == spec_box_around(self.a, self.b, self.c)
        &&& in_range(spec_low(min3x(self.a.x, self.b.x, self.c.x), max3x(self.a.x, self.b.x, self.c.x)))
        &&& in_range(spec_low(min3x(self.a.y, self.b.y, self.c.y), max3x(self.a.y, self.b.y, self.c.y)))
        &&& in_range(spec_low(min3x(self.a.z, self.b.z, self.c.z), max3x(self.a.z, self.b.z, self.c.z)))
        &&& in_range(spec_high(min3x(self.a.x, self.b.x, self.c.x), max3x(self.a.x, self.b.x, self.c.x)))
        &&& in_range(spec_high(min3x(self.a.y, self.b.y, self.c.y), max3x(self.a.y, self.b.y, self.c.y)))
        &&& in_range(spec_high(min3x(self.a.z, self.b.z, self.c.z), max3x(self.a.z, self.b.z, self.c.z)))
    }
}

/// A triangle is hit within its box: whatever distance it gives a record,
/// the ray is inside the padded box around the triangle there.
pub proof fn lemma_triangle_hits_within_box(shape: &Shape, ray: Ray, t_min: Real)
    requires
        shape matches Shape::Triangle(t) && t.fits(ray),
    ensures
        shape.hits_within_box(ray, t_min),
{
    reveal(Triangle::spec_closest_hit);
    let tr = shape->Triangle_0;
    let bx = tr.bbox;
    let ab = tr.a.spec_minus(tr.b);
    let ac = tr.a.spec_minus(tr.c);
    let ao = tr.a.spec_minus(ray.origin);
    let d = ray.direction;
    assert(ab.x == tr.a.x - tr.b.x && ab.y == tr.a.y - tr.b.y && ab.z == tr.a.z - tr.b.z);
    assert(ac.x == tr.a.x - tr.c.x && ac.y == tr.a.y - tr.c.y && ac.z == tr.a.z - tr.c.z);
    assert(ao.x == tr.a.x - ray.origin.x && ao.y == tr.a.y - ray.origin.y && ao.z == tr.a.z
        - ray.origin.z);
    let lo3 = min3(min3(tr.a, tr.b), tr.c);
    let hi3 = max3(max3(tr.a, tr.b), tr.c);
    assert(lo3.x == min3x(tr.a.x, tr.b.x, tr.c.x) && hi3.x == max3x(tr.a.x, tr.b.x, tr.c.x));
    assert(lo3.y == min3x(tr.a.y, tr.b.y, tr.c.y) && hi3.y == max3x(tr.a.y, tr.b.y, tr.c.y));
    assert(lo3.z == min3x(tr.a.z, tr.b.z, tr.c.z) && hi3.z == max3x(tr.a.z, tr.b.z, tr.c.z));
    let det = spec_det3(ab, ac, d);
    let det_t = spec_det3(ab, ac, ao);
    let det_b = spec_det3(ao, ac, d);
    let det_g = spec_det3(ab, ao, d);
    lemma_cramer(ab, ac, d, ao);
    assert forall|rec: HitRecord|
        rec.ray == ray && rec.t_min == t_min && (#[trigger] shape.spec_closest_hit(rec)).t
            < rec.t implies bx.enter(ray) <= shape.spec_closest_hit(rec).t <= bx.exit(ray) by {
        assert(shape.spec_closest_hit(rec) == tr.spec_closest_hit(rec));
        let hit = tr.spec_intersect(ray, t_min);
        assert(hit is Some);
        let solved = spec_solve_plane(ab, ac, ao, d, PARALLEL_LIMIT as int);
        assert(solved is Some && solved == hit);
        let p = hit.unwrap();
        assert(det != 0);
        let dp = if det > 0 { det } else { -det };
        let tp = if det > 0 { det_t } else { -det_t };
        let b = if det > 0 { det_b } else { -det_b };
        let g = if det > 0 { det_g } else { -det_g };
        assert(dp > 0);
        assert(floor_quot(det_t * ONE, det) == (tp * ONE) / dp && floor_quot(det_b * ONE, det) == (b
            * ONE) / dp && floor_quot(det_g * ONE, det) == (g * ONE) / dp) by {
            assert(-(det_t * ONE) == (-det_t) * ONE) by (nonlinear_arith);
            assert(-(det_b * ONE) == (-det_b) * ONE) by (nonlinear_arith);
            assert(-(det_g * ONE) == (-det_g) * ONE) by (nonlinear_arith);
        }
        assert(p.t == det_ratio(det_t, det));
        assert(p.beta == saturate((b * ONE) / dp));
        assert(p.gamma == saturate((g * ONE) / dp));
        lemma_ratio_bounds(b, dp);
        lemma_ratio_bounds(g, dp);
        let qb = (b * ONE) / dp;
        let qg = (g * ONE) / dp;
        assert(0 <= qb && 0 <= qg && qb + qg <= ONE);
        assert((b + g) * ONE < dp * (ONE + 2)) by (nonlinear_arith)
            requires
                b * ONE < dp * (qb + 1),
                g * ONE < dp * (qg + 1),
                qb + qg <= ONE,
                dp > 0,
        ;
        assert(dp * ao.x == b * ab.x + g * ac.x + tp * d.x && dp * ao.y == b * ab.y + g * ac.y + tp
            * d.y && dp * ao.z == b * ab.z + g * ac.z + tp * d.z) by (nonlinear_arith)
            requires
                det * ao.x == det_b * ab.x + det_g * ac.x + det_t * d.x,
                det * ao.y == det_b * ab.y + det_g * ac.y + det_t * d.y,
                det * ao.z == det_b * ab.z + det_g * ac.z + det_t * d.z,
                (dp == det && tp == det_t && b == det_b && g == det_g) || (dp == -det && tp
                    == -det_t && b == -det_b && g == -det_g),
        ;
        lemma_plane_axis(tr.a.x, tr.b.x, tr.c.x, ray.origin.x, d.x, bx.min.x, bx.max.x, dp, b, g, tp);
        lemma_plane_axis(tr.a.y, tr.b.y, tr.c.y, ray.origin.y, d.y, bx.min.y, bx.max.y, dp, b, g, tp);
        lemma_plane_axis(tr.a.z, tr.b.z, tr.c.z, ray.origin.z, d.z, bx.min.z, bx.max.z, dp, b, g, tp);
    }
}

/// The smaller of zero and a real.
pub open spec fn below_zero(x: Real) -> int {
    if x < 0 {
        x as int
    } else {
        0
    }
}

/// The larger of zero and a real.
pub open spec fn above_zero(x: Real) -> int {
    if x > 0 {
        x as int
    } else {
        0
    }
}

/// A side of a parallelogram, weighted with a weight `b` that is off by
/// rounding, in units of `dp`: a million times the weighted side is no less
/// than what the side takes away at most, and no more than what it adds at
/// most, each by a millionth more.
pub proof fn lemma_weighted_side(dp: int, b: int, ux: Real)
    requires
        dp > 0,
        b >= 0,
        b * ONE < dp * (ONE + 1),
    ensures
        (b * ux) * ONE >= (dp * (ONE + 1)) * below_zero(ux),
        (b * ux) * ONE <= (dp * (ONE + 1)) * above_zero(ux),
{
    let k = dp * (ONE + 1);
    let bo = b * ONE;
    assert((b * ux) * ONE == bo * ux) by (nonlinear_arith)
        requires
            bo == b * ONE,
    ;
    assert(bo >= 0) by (nonlinear_arith)
        requires
            bo == b * ONE,
            b >= 0,
    ;
    if ux < 0 {
        assert(bo * ux >= k * ux) by (nonlinear_arith)
            requires
                bo < k,
                ux < 0,
        ;
        assert(bo * ux <= 0) by (nonlinear_arith)
            requires
                bo >= 0,
                ux < 0,
        ;
        assert(k * 0 == 0);
    } else {
        assert(bo * ux <= k * ux) by (nonlinear_arith)
            requires
                bo < k,
                ux >= 0,
        ;
        assert(bo * ux >= 0) by (nonlinear_arith)
            requires
                bo >= 0,
                ux >= 0,
        ;
        assert(k * 0 == 0);
    }
}

/// Along one axis: the point where the ray meets the plane of a
/// parallelogram, the corner plus the two sides with rounded weights, lies
/// between the two padded ends of the box, so the distance of the hit lies
/// between the distances at which the ray enters and leaves the slab.
pub proof fn lemma_quad_axis(
    qx: Real,
    ux: Real,
    vx: Real,
    ox: Real,
    dx: Real,
    lo: Real,
    hi: Real,
    dp: int,
    b: int,
    g: int,
    tp: int,
)
    requires
        dp > 0,
        b >= 0,
        g >= 0,
        b * ONE < dp * (ONE + 1),
        g * ONE < dp * (ONE + 1),
        tp * dx == dp * (qx - ox) + b * ux + g * vx,
        lo == spec_low(
            (qx + below_zero(ux) + below_zero(vx)) as Real,
            (qx + above_zero(ux) + above_zero(vx)) as Real,
        ),
        hi == spec_high(
            (qx + below_zero(ux) + below_zero(vx)) as Real,
            (qx + above_zero(ux) + above_zero(vx)) as Real,
        ),
        in_range(qx + below_zero(ux) + below_zero(vx)),
        in_range(qx + above_zero(ux) + above_zero(vx)),
    ensures
        axis_enter(lo, hi, ox, dx) <= saturate(floor_quot(tp * ONE, dp)) <= axis_exit(
            lo,
            hi,
            ox,
            dx,
        ),
{
    let down = below_zero(ux) + below_zero(vx);
    let up = above_zero(ux) + above_zero(vx);
    let e = up - down;
    let pad = spec_pad(e);
    lemma_pad_is_wide(e);
    lemma_weighted_side(dp, b, ux);
    lemma_weighted_side(dp, g, vx);
    let k = dp * (ONE + 1);
    let side = b * ux + g * vx;
    assert(side * ONE == (b * ux) * ONE + (g * vx) * ONE) by (nonlinear_arith)
        requires
            side == b * ux + g * vx,
    ;
    assert(k * down == k * below_zero(ux) + k * below_zero(vx)) by (nonlinear_arith)
        requires
            down == below_zero(ux) + below_zero(vx),
    ;
    assert(k * up == k * above_zero(ux) + k * above_zero(vx)) by (nonlinear_arith)
        requires
            up == above_zero(ux) + above_zero(vx),
    ;
    assert(k * down <= side * ONE <= k * up);
    // below: dp (qx - lo) + side >= 0
    assert(qx - lo == pad - down);
    assert(hi - qx == pad + up);
    assert((dp * (qx - lo) + side) * ONE >= 0) by (nonlinear_arith)
        requires
            side * ONE >= k * down,
            k == dp * (ONE + 1),
            qx - lo == pad - down,
            down <= 0,
            -down <= e,
            2 * e <= pad * ONE,
            dp > 0,
            e >= 0,
    ;
    assert((dp * (hi - qx) - side) * ONE >= 0) by (nonlinear_arith)
        requires
            side * ONE <= k * up,
            k == dp * (ONE + 1),
            hi - qx == pad + up,
            up >= 0,
            up <= e,
            2 * e <= pad * ONE,
            dp > 0,
            e >= 0,
    ;
    assert(dp * (qx - lo) + side >= 0 && dp * (hi - qx) - side >= 0) by (nonlinear_arith)
        requires
            (dp * (qx - lo) + side) * ONE >= 0,
            (dp * (hi - qx) - side) * ONE >= 0,
            ONE == 0x10_0000,
    ;
    assert(dp * (lo - ox) == tp * dx - (dp * (qx - lo) + side)) by (nonlinear_arith)
        requires
            tp * dx == dp * (qx - ox) + side,
    ;
    assert(dp * (hi - ox) == tp * dx + (dp * (hi - qx) - side)) by (nonlinear_arith)
        requires
            tp * dx == dp * (qx - ox) + side,
    ;
    lemma_distance_within_slab(lo, hi, ox, dx, dp, tp);
}

impl Quad {
    /// Nothing about the parallelogram and the ray is beyond the range of
    /// the numbers: its four corners are not, nor is the way from the ray's
    /// origin to the first of them, and the box is the padded box around
    /// the corners and lies within the bounds.
    pub open spec fn fits(&self, ray: Ray) -> bool {
        &&& self.q.wf() && self.u.wf() && self.v.wf()
        &&& in_range(self.q.x - ray.origin.x) && in_range(self.q.y - ray.origin.y) && in_range(
            self.q.z - ray.origin.z,
        )
        &&& self.bbox == spec_quad_box(self.q, self.u, self.v)
        &&& in_range(self.q.x + below_zero(self.u.x) + below_zero(self.v.x))
        &&& in_range(self.q.y + below_zero(self.u.y) + below_zero(self.v.y))
        &&& in_range(self.q.z + below_zero(self.u.z) + below_zero(self.v.z))
        &&& in_range(self.q.x + above_zero(self.u.x) + above_zero(self.v.x))
        &&& in_range(self.q.y + above_zero(self.u.y) + above_zero(self.v.y))
        &&& in_range(self.q.z + above_zero(self.u.z) + above_zero(self.v.z))
        &&& in_range(
            spec_low(
                (self.q.x + below_zero(self.u.x) + below_zero(self.v.x)) as Real,
                (self.q.x + above_zero(self.u.x) + above_zero(self.v.x)) as Real,
            ),
        ) && in_range(
            spec_high(
                (self.q.x + below_zero(self.u.x) + below_zero(self.v.x)) as Real,
                (self.q.x + above_zero(self.u.x) + above_zero(self.v.x)) as Real,
            ),
        )
        &&& in_range(
            spec_low(
                (self.q.y + below_zero(self.u.y) + below_zero(self.v.y)) as Real,
                (self.q.y + above_zero(self.u.y) + above_zero(self.v.y)) as Real,
            ),
        ) && in_range(
            spec_high(
                (self.q.y + below_zero(self.u.y) + below_zero(self.v.y)) as Real,
                (self.q.y + above_zero(self.u.y) + above_zero(self.v.y)) as Real,
            ),
        )
        &&& in_range(
            spec_low(
                (self.q.z + below_zero(self.u.z) + below_zero(self.v.z)) as Real,
                (self.q.z + above_zero(self.u.z) + above_zero(self.v.z)) as Real,
            ),
        ) && in_range(
            spec_high(
                (self.q.z + below_zero(self.u.z) + below_zero(self.v.z)) as Real,
                (self.q.z + above_zero(self.u.z) + above_zero(self.v.z)) as Real,
            ),
        )
    }
}

/// A parallelogram is hit within its box: whatever distance it gives a
/// record, the ray is inside the padded box around the parallelogram there.
pub proof fn lemma_quad_hits_within_box(shape: &Shape, ray: Ray, t_min: Real)
    requires
        shape matches Shape::Quad(q) && q.fits(ray),
    ensures
        shape.hits_within_box(ray, t_min),
{
    reveal(Quad::spec_closest_hit);
    let qd = shape->Quad_0;
    let bx = qd.bbox;
    let ab = qd.u.spec_neg();
    let ac = qd.v.spec_neg();
    let ao = qd.q.spec_minus(ray.origin);
    let d = ray.direction;
    assert(ab.x == -qd.u.x && ab.y == -qd.u.y && ab.z == -qd.u.z);
    assert(ac.x == -qd.v.x && ac.y == -qd.v.y && ac.z == -qd.v.z);
    assert(ao.x == qd.q.x - ray.origin.x && ao.y == qd.q.y - ray.origin.y && ao.z == qd.q.z
        - ray.origin.z);
    let qu = qd.q.spec_plus(qd.u);
    let qv = qd.q.spec_plus(qd.v);
    let quv = qu.spec_plus(qd.v);
    assert(qu.x == qd.q.x + qd.u.x && qv.x == qd.q.x + qd.v.x && quv.x == qd.q.x + qd.u.x
        + qd.v.x);
    assert(qu.y == qd.q.y + qd.u.y && qv.y == qd.q.y + qd.v.y && quv.y == qd.q.y + qd.u.y
        + qd.v.y);
    assert(qu.z == qd.q.z + qd.u.z && qv.z == qd.q.z + qd.v.z && quv.z == qd.q.z + qd.u.z
        + qd.v.z);
    let lo3 = min3(min3(qd.q, qu), min3(qv, quv));
    let hi3 = max3(max3(qd.q, qu), max3(qv, quv));
    assert(lo3.x == qd.q.x + below_zero(qd.u.x) + below_zero(qd.v.x));
    assert(lo3.y == qd.q.y + below_zero(qd.u.y) + below_zero(qd.v.y));
    assert(lo3.z == qd.q.z + below_zero(qd.u.z) + below_zero(qd.v.z));
    assert(hi3.x == qd.q.x + above_zero(qd.u.x) + above_zero(qd.v.x));
    assert(hi3.y == qd.q.y + above_zero(qd.u.y) + above_zero(qd.v.y));
    assert(hi3.z == qd.q.z + above_zero(qd.u.z) + above_zero(qd.v.z));
    let det = spec_det3(ab, ac, d);
    let det_t = spec_det3(ab, ac, ao);
    let det_b = spec_det3(ao, ac, d);
    let det_g = spec_det3(ab, ao, d);
    lemma_cramer(ab, ac, d, ao);
    assert forall|rec: HitRecord|
        rec.ray == ray && rec.t_min == t_min && (#[trigger] shape.spec_closest_hit(rec)).t
            < rec.t implies bx.enter(ray) <= shape.spec_closest_hit(rec).t <= bx.exit(ray) by {
        assert(shape.spec_closest_hit(rec) == qd.spec_closest_hit(rec));
        let hit = qd.spec_intersect(ray, t_min);
        assert(hit is Some);
        let solved = spec_solve_plane(ab, ac, ao, d, 0);
        assert(solved is Some && solved == hit);
        let p = hit.unwrap();
        assert(det != 0);
        let dp = if det > 0 { det } else { -det };
        let tp = if det > 0 { det_t } else { -det_t };
        let b = if det > 0 { det_b } else { -det_b };
        let g = if det > 0 { det_g } else { -det_g };
        assert(floor_quot(det_t * ONE, det) == (tp * ONE) / dp && floor_quot(det_b * ONE, det) == (b
            * ONE) / dp && floor_quot(det_g * ONE, det) == (g * ONE) / dp) by {
            assert(-(det_t * ONE) == (-det_t) * ONE) by (nonlinear_arith);
            assert(-(det_b * ONE) == (-det_b) * ONE) by (nonlinear_arith);
            assert(-(det_g * ONE) == (-det_g) * ONE) by (nonlinear_arith);
        }
        assert(p.t == det_ratio(det_t, det));
        assert(p.beta == saturate((b * ONE) / dp));
        assert(p.gamma == saturate((g * ONE) / dp));
        lemma_ratio_bounds(b, dp);
        lemma_ratio_bounds(g, dp);
        let qb = (b * ONE) / dp;
        let qg = (g * ONE) / dp;
        assert(0 <= qb <= ONE && 0 <= qg <= ONE);
        assert(b * ONE < dp * (ONE + 1) && g * ONE < dp * (ONE + 1)) by (nonlinear_arith)
            requires
                b * ONE < dp * (qb + 1),
                g * ONE < dp * (qg + 1),
                qb <= ONE,
                qg <= ONE,
                dp > 0,
        ;
        assert(tp * d.x == dp * ao.x + b * qd.u.x + g * qd.v.x && tp * d.y == dp * ao.y + b
            * qd.u.y + g * qd.v.y && tp * d.z == dp * ao.z + b * qd.u.z + g * qd.v.z)
            by (nonlinear_arith)
            requires
                det * ao.x == det_b * ab.x + det_g * ac.x + det_t * d.x,
                det * ao.y == det_b * ab.y + det_g * ac.y + det_t * d.y,
                det * ao.z == det_b * ab.z + det_g * ac.z + det_t * d.z,
                ab.x == -qd.u.x && ab.y == -qd.u.y && ab.z == -qd.u.z,
                ac.x == -qd.v.x && ac.y == -qd.v.y && ac.z == -qd.v.z,
                (dp == det && tp == det_t && b == det_b && g == det_g) || (dp == -det && tp
                    == -det_t && b == -det_b && g == -det_g),
        ;
        lemma_quad_axis(qd.q.x, qd.u.x, qd.v.x, ray.origin.x, d.x, bx.min.x, bx.max.x, dp, b, g, tp);
        lemma_quad_axis(qd.q.y, qd.u.y, qd.v.y, ray.origin.y, d.y, bx.min.y, bx.max.y, dp, b, g, tp);
        lemma_quad_axis(qd.q.z, qd.u.z, qd.v.z, ray.origin.z, d.z, bx.min.z, bx.max.z, dp, b, g, tp);
    }
}

/// A triangle hides behind its box only where the ray does not cross the
/// box.
pub proof fn lemma_triangle_box_is_conservative(shape: &Shape, ray: Ray, t_min: Real)
    requires
        shape matches Shape::Triangle(t) && t.fits(ray),
        is_crossed(shape.bbox(), ray, t_min),
    ensures
        shape.box_is_conservative(ray, t_min),
{
    lemma_triangle_hits_within_box(shape, ray, t_min);
    lemma_conservative_where_crossed(shape, ray, t_min);
}

/// A parallelogram hides behind its box only where the ray does not cross
/// the box.
pub proof fn lemma_quad_box_is_conservative(shape: &Shape, ray: Ray, t_min: Real)
    requires
        shape matches Shape::Quad(q) && q.fits(ray),
        is_crossed(shape.bbox(), ray, t_min),
    ensures
        shape.box_is_conservative(ray, t_min),
{
    lemma_quad_hits_within_box(shape, ray, t_min);
    lemma_conservative_where_crossed(shape, ray, t_min);
}

} // verus!
