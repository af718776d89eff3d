//! Angles as fractions of a full turn, from the coordinates of a direction.
//!
//! The arc tangent is approximated by a cubic on the first half of the first
//! quadrant and carried to the other seven by symmetry. The approximation is
//! exact on the axes and on the diagonals and grows with the tangent in
//! between.
use crate::math::vector::V3;
use crate::scalar::{
    floor_div_wide, in_range, mul_wide, real_abs, real_div, real_mul, real_neg, real_sqrt,
    real_sub, saturate, spec_abs, spec_div, spec_mul, spec_sqrt, spec_sub, Real, ONE,
};
use vstd::prelude::*;

verus! {

/// The first coefficient of the bend of the cubic, in turns.
pub const ATAN_BEND: Real = 40837;

/// The second coefficient of the bend of the cubic, in turns.
pub const ATAN_BEND_SLOPE: Real = 11065;

/// An eighth of a turn.
pub const EIGHTH_TURN: Real = 0x2_0000;

/// A quarter of a turn.
pub const QUARTER_TURN: Real = 0x4_0000;

/// Half a turn.
pub const HALF_TURN: Real = 0x8_0000;

/// A real cut off to the interval from `lo` to `hi`.
pub open spec fn spec_clamp(x: int, lo: int, hi: int) -> int {
    if x < lo {
        lo
    } else if x > hi {
        hi
    } else {
        x
    }
}

/// One to the third power: the unit of the cubic.
pub const ONE_CUBED: i128 = 0x1000_0000_0000_0000;

/// The cubic `t / 8 + t (1 - t) (ATAN_BEND + ATAN_BEND_SLOPE t)` for a
/// tangent `t` between zero and one, in units of `1 / ONE_CUBED`.
pub open spec fn spec_atan_cubic(t: int) -> int {
    (ONE_CUBED / 8) * t + (t * (ONE - t)) * (ATAN_BEND * ONE + ATAN_BEND_SLOPE * t)
}

/// The angle, in turns, whose tangent is `t`, for `t` between zero and one:
/// the cubic, rounded down. A tangent beyond the interval counts as its
/// nearer end.
pub open spec fn spec_atan_unit(t: Real) -> Real {
    (spec_atan_cubic(spec_clamp(t as int, 0, ONE as int)) / (ONE_CUBED as int)) as Real
}

/// The cubic, term by term.
pub proof fn lemma_atan_cubic_terms(t: int)
    ensures
        spec_atan_cubic(t) == (ONE_CUBED / 8 + ATAN_BEND * (ONE * ONE)) * t + ((ATAN_BEND_SLOPE
            - ATAN_BEND) * ONE) * (t * t) - ATAN_BEND_SLOPE * (t * (t * t)),
{
    let a = ATAN_BEND * ONE;
    let c = ATAN_BEND_SLOPE as int;
    let one = ONE as int;
    assert(t * (one - t) == one * t - t * t) by (nonlinear_arith);
    assert((one * t - t * t) * (a + c * t) == (one * t) * a + (one * t) * (c * t) - (t * t) * a
        - (t * t) * (c * t)) by (nonlinear_arith);
    assert((one * t) * a == (a * one) * t) by (nonlinear_arith);
    assert((one * t) * (c * t) == (c * one) * (t * t)) by (nonlinear_arith);
    assert((t * t) * a == a * (t * t)) by (nonlinear_arith);
    assert((t * t) * (c * t) == c * (t * (t * t))) by (nonlinear_arith);
    assert(a * one == ATAN_BEND * (ONE * ONE)) by (nonlinear_arith)
        requires
            a == ATAN_BEND * ONE,
            one == ONE,
    ;
    assert((c * one) * (t * t) - a * (t * t) == ((ATAN_BEND_SLOPE - ATAN_BEND) * ONE) * (t * t))
        by (nonlinear_arith)
        requires
            a == ATAN_BEND * ONE,
            c == ATAN_BEND_SLOPE,
            one == ONE,
    ;
    assert((ONE_CUBED / 8) * t + (a * one) * t == (ONE_CUBED / 8 + a * one) * t)
        by (nonlinear_arith);
}

/// The cubic grows with the tangent, all the way from zero to one.
pub proof fn lemma_atan_cubic_monotone(t1: int, t2: int)
    requires
        0 <= t1 <= t2 <= ONE,
    ensures
        spec_atan_cubic(t1) <= spec_atan_cubic(t2),
{
    lemma_atan_cubic_terms(t1);
    lemma_atan_cubic_terms(t2);
    let k = ONE_CUBED / 8 + ATAN_BEND * (ONE * ONE);
    let m = (ATAN_BEND - ATAN_BEND_SLOPE) * ONE;
    let c = ATAN_BEND_SLOPE as int;
    let d = t2 - t1;
    let s = t1 + t2;
    let q = t1 * t1 + t1 * t2 + t2 * t2;
    assert(t2 * t2 - t1 * t1 == d * s) by (nonlinear_arith)
        requires
            d == t2 - t1,
            s == t1 + t2,
    ;
    assert(t2 * (t2 * t2) - t1 * (t1 * t1) == d * q) by (nonlinear_arith)
        requires
            d == t2 - t1,
            q == t1 * t1 + t1 * t2 + t2 * t2,
    ;
    let x2 = t2 * t2 - t1 * t1;
    let x3 = t2 * (t2 * t2) - t1 * (t1 * t1);
    assert(ONE * ONE == 0x100_0000_0000) by (nonlinear_arith);
    assert(k == 0x200_0000_0000_0000 + 40837 * 0x100_0000_0000);
    assert(m == 29772 * 0x10_0000);
    assert((ATAN_BEND_SLOPE - ATAN_BEND) * ONE == -m);
    let p1 = k * t1;
    let p2 = k * t2;
    let a1 = m * (t1 * t1);
    let a2 = m * (t2 * t2);
    let b1 = c * (t1 * (t1 * t1));
    let b2 = c * (t2 * (t2 * t2));
    assert((-m) * (t1 * t1) == -a1 && (-m) * (t2 * t2) == -a2) by (nonlinear_arith)
        requires
            a1 == m * (t1 * t1),
            a2 == m * (t2 * t2),
    ;
    assert(spec_atan_cubic(t1) == p1 - a1 - b1);
    assert(spec_atan_cubic(t2) == p2 - a2 - b2);
    assert(p2 - p1 == k * d) by (nonlinear_arith)
        requires
            p1 == k * t1,
            p2 == k * t2,
            d == t2 - t1,
    ;
    assert(a2 - a1 == m * x2) by (nonlinear_arith)
        requires
            a1 == m * (t1 * t1),
            a2 == m * (t2 * t2),
            x2 == t2 * t2 - t1 * t1,
    ;
    assert(b2 - b1 == c * x3) by (nonlinear_arith)
        requires
            b1 == c * (t1 * (t1 * t1)),
            b2 == c * (t2 * (t2 * t2)),
            x3 == t2 * (t2 * t2) - t1 * (t1 * t1),
    ;
    assert(spec_atan_cubic(t2) - spec_atan_cubic(t1) == k * d - m * x2 - c * x3);
    assert(q <= 3 * (ONE * ONE)) by (nonlinear_arith)
        requires
            0 <= t1 <= ONE,
            0 <= t2 <= ONE,
            q == t1 * t1 + t1 * t2 + t2 * t2,
    ;
    let slope = k - m * s - c * q;
    assert(m * s <= m * (2 * ONE)) by (nonlinear_arith)
        requires
            m >= 0,
            s <= 2 * ONE,
    ;
    assert(c * q <= c * (3 * (ONE * ONE))) by (nonlinear_arith)
        requires
            c >= 0,
            q <= 3 * (ONE * ONE),
    ;
    assert(m * (2 * ONE) == 29772 * 0x200_0000_0000) by (nonlinear_arith)
        requires
            m == 29772 * 0x10_0000,
            ONE == 0x10_0000,
    ;
    assert(c * (3 * (ONE * ONE)) == 33195 * 0x100_0000_0000) by (nonlinear_arith)
        requires
            c == 11065,
            ONE * ONE == 0x100_0000_0000,
    ;
    assert(slope >= 0);
    assert(k * d - m * (d * s) - c * (d * q) == d * slope) by (nonlinear_arith)
        requires
            slope == k - m * s - c * q,
    ;
    assert(d * slope >= 0) by (nonlinear_arith)
        requires
            d >= 0,
            slope >= 0,
    ;
}

/// The approximation grows with the tangent: a larger tangent never has a
/// smaller angle.
pub proof fn lemma_atan_unit_monotone(t1: Real, t2: Real)
    requires
        t1 <= t2,
    ensures
        spec_atan_unit(t1) <= spec_atan_unit(t2),
{
    let c1 = spec_clamp(t1 as int, 0, ONE as int);
    let c2 = spec_clamp(t2 as int, 0, ONE as int);
    lemma_atan_cubic_monotone(c1, c2);
    lemma_atan_cubic_monotone(0, c1);
    lemma_atan_cubic_monotone(c2, ONE as int);
    lemma_atan_cubic_ends();
    vstd::arithmetic::div_mod::lemma_div_is_ordered(
        spec_atan_cubic(c1),
        spec_atan_cubic(c2),
        ONE_CUBED as int,
    );
    vstd::arithmetic::div_mod::lemma_div_is_ordered(0, spec_atan_cubic(c1), ONE_CUBED as int);
    vstd::arithmetic::div_mod::lemma_div_is_ordered(
        spec_atan_cubic(c2),
        spec_atan_cubic(ONE as int),
        ONE_CUBED as int,
    );
}

/// The cubic at its two ends: zero, and an eighth of a turn.
pub proof fn lemma_atan_cubic_ends()
    ensures
        spec_atan_cubic(0) == 0,
        spec_atan_cubic(ONE as int) == (ONE_CUBED / 8) * ONE,
        spec_atan_cubic(0) / (ONE_CUBED as int) == 0,
        spec_atan_cubic(ONE as int) / (ONE_CUBED as int) == EIGHTH_TURN,
{
    assert((0int * (ONE - 0)) * (ATAN_BEND * ONE + ATAN_BEND_SLOPE * 0) == 0) by (nonlinear_arith);
    assert((ONE * (ONE - ONE)) * (ATAN_BEND * ONE + ATAN_BEND_SLOPE * ONE) == 0)
        by (nonlinear_arith);
    assert((ONE_CUBED / 8) * 0 == 0);
}

/// The angle, in turns, of the direction `(x, y)` in its first quadrant
/// image `(|x|, |y|)`: between zero and a quarter.
pub open spec fn spec_first_quadrant(y: Real, x: Real) -> Real {
    let ax = spec_abs(x) as Real;
    let ay = spec_abs(y) as Real;
    if ax >= ay {
        spec_atan_unit(spec_div(ay, ax) as Real)
    } else {
        (QUARTER_TURN - spec_atan_unit(spec_div(ax, ay) as Real)) as Real
    }
}

/// The angle, in turns, from the positive `x` axis to the direction
/// `(x, y)`, counted against the clock: from minus a half to a half, and
/// zero for the direction without length.
pub open spec fn spec_atan2_turns(y: Real, x: Real) -> Real {
    if x == 0 && y == 0 {
        0
    } else {
        let first = spec_first_quadrant(y, x);
        if x >= 0 {
            if y >= 0 {
                first
            } else {
                (-first) as Real
            }
        } else if y >= 0 {
            (HALF_TURN - first) as Real
        } else {
            (first - HALF_TURN) as Real
        }
    }
}

/// The surface coordinates of the point of a sphere with the outward unit
/// normal `n`: `u` runs once around the `y` axis, from the negative `x` axis
/// through the positive `z` axis, and `v` from the top of the sphere to its
/// bottom.
pub open spec fn spec_sphere_uv(n: V3) -> (Real, Real) {
    let ring = spec_sqrt(spec_sub(ONE, spec_mul(n.y, n.y) as Real) as Real) as Real;
    (
        (spec_atan2_turns(saturate(-n.z) as Real, n.x) + HALF_TURN) as Real,
        (2 * spec_atan2_turns(ring, n.y)) as Real,
    )
}

/// The angle, in turns, whose tangent is `t`, for `t` between zero and one.
pub fn atan_unit(t: Real) -> (a: Real)
    ensures
        a == spec_atan_unit(t),
        0 <= a <= EIGHTH_TURN,
{
    let t: Real = if t < 0 {
        0
    } else if t > ONE {
        ONE
    } else {
        t
    };
    proof {
        lemma_atan_unit_ends(t);
        lemma_atan_cubic_ends();
        lemma_atan_cubic_monotone(0, t as int);
        lemma_atan_cubic_monotone(t as int, ONE as int);
    }
    let wide: i128 = t as i128;
    let product: i128 = mul_wide(wide, ONE as i128 - wide, Ghost(0x10_0000), Ghost(0x10_0000));
    let factor: i128 = (ATAN_BEND as i128) * (ONE as i128) + (ATAN_BEND_SLOPE as i128) * wide;
    let bend: i128 = mul_wide(product, factor, Ghost(0x100_0000_0000), Ghost(0x10_0000_0000_0000));
    let linear: i128 = (ONE_CUBED / 8) * wide;
    floor_div_wide(linear + bend, ONE_CUBED) as i64
}

/// The angle, in turns, from the positive `x` axis to the direction
/// `(x, y)`.
pub fn atan2_turns(y: Real, x: Real) -> (a: Real)
    ensures
        a == spec_atan2_turns(y, x),
        -HALF_TURN <= a <= HALF_TURN,
        y >= 0 ==> a >= 0,
{
    if x == 0 && y == 0 {
        return 0;
    }
    let ax = real_abs(x);
    let ay = real_abs(y);
    let first = if ax >= ay {
        atan_unit(real_div(ay, ax))
    } else {
        QUARTER_TURN - atan_unit(real_div(ax, ay))
    };
    if x >= 0 {
        if y >= 0 {
            first
        } else {
            -first
        }
    } else if y >= 0 {
        HALF_TURN - first
    } else {
        first - HALF_TURN
    }
}

/// The surface coordinates of the point of a sphere with the outward unit
/// normal `n`.
pub fn sphere_uv(n: &V3) -> (uv: (Real, Real))
    ensures
        uv == spec_sphere_uv(*n),
        0 <= uv.0 <= ONE,
        0 <= uv.1 <= ONE,
{
    let ring = real_sqrt(real_sub(ONE, real_mul(n.y, n.y)));
    let u = atan2_turns(real_neg(n.z), n.x) + HALF_TURN;
    let v = 2 * atan2_turns(ring, n.y);
    (u, v)
}

/// The approximation meets the arc tangent at both ends of its interval:
/// the angle is zero for the tangent zero and an eighth of a turn for the
/// tangent one, and never outside these.
pub proof fn lemma_atan_unit_ends(t: Real)
    ensures
        spec_atan_unit(0) == 0,
        spec_atan_unit(ONE) == EIGHTH_TURN,
        0 <= spec_atan_unit(t) <= EIGHTH_TURN,
        t <= 0 ==> spec_atan_unit(t) == 0,
        t >= ONE ==> spec_atan_unit(t) == EIGHTH_TURN,
{
    lemma_atan_cubic_ends();
    let c = spec_clamp(t as int, 0, ONE as int);
    lemma_atan_cubic_monotone(0, c);
    lemma_atan_cubic_monotone(c, ONE as int);
    vstd::arithmetic::div_mod::lemma_div_is_ordered(0, spec_atan_cubic(c), ONE_CUBED as int);
    vstd::arithmetic::div_mod::lemma_div_is_ordered(
        spec_atan_cubic(c),
        spec_atan_cubic(ONE as int),
        ONE_CUBED as int,
    );
}

/// The angle of a direction is exact on the axes and on the diagonals, in
/// every quadrant.
pub proof fn lemma_atan2_on_axes(k: Real)
    requires
        0 < k <= crate::scalar::INFINITY,
    ensures
        spec_atan2_turns(0, k) == 0,
        spec_atan2_turns(k, k) == EIGHTH_TURN,
        spec_atan2_turns(k, 0) == QUARTER_TURN,
        spec_atan2_turns(k, (-k) as Real) == QUARTER_TURN + EIGHTH_TURN,
        spec_atan2_turns(0, (-k) as Real) == HALF_TURN,
        spec_atan2_turns((-k) as Real, (-k) as Real) == -(QUARTER_TURN + EIGHTH_TURN),
        spec_atan2_turns((-k) as Real, 0) == -QUARTER_TURN,
        spec_atan2_turns((-k) as Real, k) == -EIGHTH_TURN,
{
    lemma_atan_unit_ends(0);
    assert(spec_abs(k) == k && spec_abs((-k) as Real) == k && spec_abs(0) == 0);
    assert(spec_div(0, k) == 0) by {
        assert(0 * ONE == 0);
        vstd::arithmetic::div_mod::lemma_div_basics_1(k as int);
    }
    assert(spec_div(k, k) == ONE) by {
        vstd::arithmetic::div_mod::lemma_div_multiples_vanish(ONE as int, k as int);
        assert(k * ONE == k * (ONE as int));
    }
}

/// The angle of a direction lies within half a turn to either side, and on
/// the side of the `x` axis to which the direction points.
pub proof fn lemma_atan2_range(y: Real, x: Real)
    ensures
        -HALF_TURN <= spec_atan2_turns(y, x) <= HALF_TURN,
        y >= 0 ==> spec_atan2_turns(y, x) >= 0,
        y < 0 ==> spec_atan2_turns(y, x) <= 0,
        x >= 0 ==> -QUARTER_TURN <= spec_atan2_turns(y, x) <= QUARTER_TURN,
{
    lemma_atan_unit_ends(spec_div(spec_abs(y) as Real, spec_abs(x) as Real) as Real);
    lemma_atan_unit_ends(spec_div(spec_abs(x) as Real, spec_abs(y) as Real) as Real);
}

/// To mirror a direction at the `x` axis changes the sign of its angle,
/// except for the direction along the negative `x` axis, whose angle is
/// half a turn either way.
pub proof fn lemma_atan2_mirror(y: Real, x: Real)
    requires
        in_range(y as int),
        y != 0 || x >= 0,
    ensures
        spec_atan2_turns((-y) as Real, x) == -spec_atan2_turns(y, x),
{
    let my = (-y) as Real;
    assert(spec_abs(my) == spec_abs(y));
    let f = spec_first_quadrant(y, x);
    assert(spec_first_quadrant(my, x) == f);
    lemma_atan_unit_ends(spec_div(spec_abs(y) as Real, spec_abs(x) as Real) as Real);
    lemma_atan_unit_ends(spec_div(spec_abs(x) as Real, spec_abs(y) as Real) as Real);
    assert(0 <= f <= QUARTER_TURN);
    if y == 0 {
        if x > 0 {
            assert(spec_abs(0) == 0);
            assert(spec_abs(x) > 0);
            assert(spec_div(0, spec_abs(x) as Real) == 0) by {
                assert(0 * ONE == 0);
                vstd::arithmetic::div_mod::lemma_div_basics_1(spec_abs(x));
            }
            lemma_atan_unit_ends(0);
            assert(f == 0);
        }
    } else if y > 0 {
        assert(my < 0);
    } else {
        assert(my > 0);
    }
}

} // verus!
