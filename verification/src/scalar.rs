//! Fixed-point scalars.
//!
//! Every quantity of the renderer (coordinates, distances along a ray, colour
//! channels) is a `Real`: a signed integer that counts units of `1 / ONE`.
//! Arithmetic rounds towards minus infinity and saturates at `±INFINITY`, so a
//! value that has reached the bound behaves as an infinite one: it is never
//! smaller than a bound it is compared with.
//!
//! With twenty fractional bits `ONE` is two to the twenty and `INFINITY`,
//! two to the thirty, stands for 1024: whatever is well formed lies within
//! ±1024, and a distance of 1024 counts as no hit. The bound is chosen so
//! that the exact products that the shapes need (a discriminant has four
//! factors) fit 128 bits.
use vstd::arithmetic::div_mod::lemma_fundamental_div_mod_converse;
use vstd::prelude::*;

verus! {

/// A fixed-point number with twenty fractional bits.
pub type Real = i64;

/// The number one.
pub const ONE: Real = 0x10_0000;

/// The saturation bound. No finite quantity reaches it.
pub const INFINITY: Real = 0x4000_0000;

/// The smallest positive `Real`.
pub const VERY_SMALL_NUMBER: Real = 1;

/// The number one among wide integers.
pub const ONE_WIDE: i128 = 0x10_0000;

/// The largest magnitude that the wide helpers take: two to the 126.
pub const WIDE_LIMIT: i128 = 0x4000_0000_0000_0000_0000_0000_0000_0000;

/// `x` lies between the two saturation bounds.
pub open spec fn in_range(x: int) -> bool {
    -INFINITY <= x <= INFINITY
}

/// `x` cut off at the saturation bounds.
pub open spec fn saturate(x: int) -> int {
    if x < -INFINITY {
        -INFINITY
    } else if x > INFINITY {
        INFINITY as int
    } else {
        x
    }
}

/// The quotient `n / d` rounded towards minus infinity, for any sign of `d`.
pub open spec fn floor_quot(n: int, d: int) -> int
    recommends
        d != 0,
{
    if d > 0 {
        n / d
    } else {
        (-n) / (-d)
    }
}

/// The sum of two reals.
pub open spec fn spec_add(a: Real, b: Real) -> int {
    saturate(a + b)
}

/// The difference of two reals.
pub open spec fn spec_sub(a: Real, b: Real) -> int {
    saturate(a - b)
}

/// The product of two reals, rounded down.
pub open spec fn spec_mul(a: Real, b: Real) -> int {
    saturate((a * b) / (ONE as int))
}

/// The quotient of two reals, rounded down. A non-zero value divided by zero
/// is infinite with the sign of the dividend; zero divided by zero is zero.
pub open spec fn spec_div(a: Real, b: Real) -> int {
    if b == 0 {
        if a > 0 {
            INFINITY as int
        } else if a < 0 {
            -INFINITY
        } else {
            0
        }
    } else {
        saturate(floor_quot(a * ONE, b as int))
    }
}

/// The absolute value of a real.
pub open spec fn spec_abs(a: Real) -> int {
    saturate(if a < 0 { -a } else { a as int })
}

/// `r` is the integer square root of `n`.
pub open spec fn is_isqrt(n: int, r: int) -> bool {
    0 <= r && r * r <= n < (r + 1) * (r + 1)
}

/// The integer square root of a natural number.
pub open spec fn isqrt(n: int) -> int {
    choose|r: int| is_isqrt(n, r)
}

/// The square root of a real, rounded down; that of a negative one is zero.
pub open spec fn spec_sqrt(a: Real) -> int {
    if a <= 0 {
        0
    } else {
        isqrt(a * ONE)
    }
}

/// The integer square root is unique.
pub proof fn lemma_isqrt_unique(n: int, r: int)
    requires
        is_isqrt(n, r),
    ensures
        isqrt(n) == r,
{
    let s = isqrt(n);
    assert(is_isqrt(n, s));
    assert(s == r) by (nonlinear_arith)
        requires
            0 <= r,
            0 <= s,
            r * r <= n < (r + 1) * (r + 1),
            s * s <= n < (s + 1) * (s + 1),
    ;
}

/// Every natural number has an integer square root.
pub proof fn lemma_isqrt_exists(n: int)
    requires
        n >= 0,
    ensures
        is_isqrt(n, isqrt(n)),
    decreases n,
{
    if n == 0 {
        assert(is_isqrt(0, 0));
    } else {
        lemma_isqrt_exists(n - 1);
        let r = isqrt(n - 1);
        if (r + 1) * (r + 1) <= n {
            assert((r + 1) * (r + 1) == n) by (nonlinear_arith)
                requires
                    (r + 1) * (r + 1) <= n,
                    n - 1 < (r + 1) * (r + 1),
            ;
            assert(n < (r + 2) * (r + 2)) by (nonlinear_arith)
                requires
                    (r + 1) * (r + 1) == n,
                    r >= 0,
            ;
            assert(is_isqrt(n, r + 1));
        } else {
            assert(is_isqrt(n, r));
        }
    }
}

/// A product is bounded by the product of the bounds of its factors.
pub proof fn lemma_product_bound(a: int, b: int, ma: int, mb: int)
    requires
        -ma <= a <= ma,
        -mb <= b <= mb,
    ensures
        -(ma * mb) <= a * b <= ma * mb,
{
    assert(-(ma * mb) <= a * b <= ma * mb) by (nonlinear_arith)
        requires
            -ma <= a <= ma,
            -mb <= b <= mb,
    ;
}

/// Rounding down keeps the order of two quotients with a common positive
/// divisor.
pub proof fn lemma_floor_quot_monotone(n: int, m: int, d: int)
    requires
        n <= m,
        d > 0,
    ensures
        floor_quot(n, d) <= floor_quot(m, d),
{
    vstd::arithmetic::div_mod::lemma_div_is_ordered(n, m, d);
}

/// With a negative divisor, rounding down reverses the order of two quotients.
pub proof fn lemma_floor_quot_antitone(n: int, m: int, d: int)
    requires
        n <= m,
        d < 0,
    ensures
        floor_quot(m, d) <= floor_quot(n, d),
{
    vstd::arithmetic::div_mod::lemma_div_is_ordered(-m, -n, -d);
}

/// A quotient by a positive integer is no larger in absolute value than
/// the dividend.
pub proof fn lemma_quotient_bound(n: int, d: int, m: int)
    requires
        d > 0,
        -m <= n <= m,
    ensures
        -m <= n / d <= m,
{
    let q = n / d;
    let r = n % d;
    vstd::arithmetic::div_mod::lemma_fundamental_div_mod(n, d);
    vstd::arithmetic::div_mod::lemma_mod_bound(n, d);
    assert(-m <= q <= m) by (nonlinear_arith)
        requires
            n == d * q + r,
            0 <= r < d,
            d > 0,
            -m <= n <= m,
    ;
}

/// Cuts a wide integer off at the saturation bounds.
pub fn saturate_wide(x: i128) -> (r: Real)
    ensures
        r == saturate(x as int),
        in_range(r as int),
{
    if x < -(INFINITY as i128) {
        -INFINITY
    } else if x > INFINITY as i128 {
        INFINITY
    } else {
        x as i64
    }
}

/// Divides two wide integers, rounding towards minus infinity.
pub fn floor_div_wide(n: i128, d: i128) -> (q: i128)
    requires
        d != 0,
        -WIDE_LIMIT <= n <= WIDE_LIMIT,
        -WIDE_LIMIT <= d <= WIDE_LIMIT,
    ensures
        q == floor_quot(n as int, d as int),
{
    let nn: i128 = if d > 0 { n } else { -n };
    let dd: i128 = if d > 0 { d } else { -d };
    if nn >= 0 {
        nn / dd
    } else {
        let m: i128 = -nn;
        let q: i128 = m / dd;
        let r: i128 = m % dd;
        proof {
            vstd::arithmetic::div_mod::lemma_fundamental_div_mod(m as int, dd as int);
            vstd::arithmetic::div_mod::lemma_mod_bound(m as int, dd as int);
            vstd::arithmetic::div_mod::lemma_div_pos_is_pos(m as int, dd as int);
            vstd::arithmetic::div_mod::lemma_div_nonincreasing(m as int, dd as int);
        }
        if r == 0 {
            proof {
                assert(nn == (-q) * dd + 0) by (nonlinear_arith)
                    requires
                        m == dd * q + r,
                        r == 0,
                        nn == -m,
                ;
                lemma_fundamental_div_mod_converse(nn as int, dd as int, -(q as int), 0);
            }
            -q
        } else {
            proof {
                assert(nn == (-q - 1) * dd + (dd - r)) by (nonlinear_arith)
                    requires
                        m == dd * q + r,
                        nn == -m,
                ;
                lemma_fundamental_div_mod_converse(
                    nn as int,
                    dd as int,
                    -(q as int) - 1,
                    (dd - r) as int,
                );
            }
            -q - 1
        }
    }
}

/// Adds two reals.
pub fn real_add(a: Real, b: Real) -> (r: Real)
    ensures
        r == spec_add(a, b),
        in_range(r as int),
{
    saturate_wide(a as i128 + b as i128)
}

/// Subtracts `b` from `a`.
pub fn real_sub(a: Real, b: Real) -> (r: Real)
    ensures
        r == spec_sub(a, b),
        in_range(r as int),
{
    saturate_wide(a as i128 - b as i128)
}

/// Changes the sign of a real.
pub fn real_neg(a: Real) -> (r: Real)
    ensures
        r == saturate(-a),
        in_range(r as int),
{
    saturate_wide(-(a as i128))
}

/// The absolute value of a real.
pub fn real_abs(a: Real) -> (r: Real)
    ensures
        r == spec_abs(a),
        in_range(r as int),
        r >= 0,
{
    if a < 0 {
        saturate_wide(-(a as i128))
    } else {
        saturate_wide(a as i128)
    }
}

/// The smaller of two reals.
pub fn real_min(a: Real, b: Real) -> (r: Real)
    ensures
        r == if a <= b { a } else { b },
{
    if a <= b {
        a
    } else {
        b
    }
}

/// The larger of two reals.
pub fn real_max(a: Real, b: Real) -> (r: Real)
    ensures
        r == if a >= b { a } else { b },
{
    if a >= b {
        a
    } else {
        b
    }
}

/// Multiplies two wide integers whose product is known to fit.
pub(crate) fn mul_wide(a: i128, b: i128, Ghost(ma): Ghost<int>, Ghost(mb): Ghost<int>) -> (r: i128)
    requires
        -ma <= a <= ma,
        -mb <= b <= mb,
        ma * mb <= WIDE_LIMIT,
    ensures
        r == a * b,
        -(ma * mb) <= r <= ma * mb,
{
    proof {
        lemma_product_bound(a as int, b as int, ma, mb);
    }
    a * b
}

/// Multiplies two reals.
pub fn real_mul(a: Real, b: Real) -> (r: Real)
    ensures
        r == spec_mul(a, b),
        in_range(r as int),
{
    let p: i128 = mul_wide(
        a as i128,
        b as i128,
        Ghost(0x8000_0000_0000_0000),
        Ghost(0x8000_0000_0000_0000),
    );
    let q: i128 = floor_div_wide(p, ONE_WIDE);
    saturate_wide(q)
}

/// Divides `a` by `b`.
pub fn real_div(a: Real, b: Real) -> (r: Real)
    ensures
        r == spec_div(a, b),
        in_range(r as int),
{
    if b == 0 {
        if a > 0 {
            INFINITY
        } else if a < 0 {
            -INFINITY
        } else {
            0
        }
    } else {
        let p: i128 = mul_wide(
            a as i128,
            ONE_WIDE,
            Ghost(0x8000_0000_0000_0000),
            Ghost(0x10_0000),
        );
        let q: i128 = floor_div_wide(p, b as i128);
        saturate_wide(q)
    }
}

/// The integer square root of a wide natural number.
pub fn isqrt_wide(n: u128) -> (r: u128)
    ensures
        is_isqrt(n as int, r as int),
        r == isqrt(n as int),
        r < 0x1_0000_0000_0000_0000,
{
    let mut lo: u128 = 0;
    let mut hi: u128 = 0x1_0000_0000_0000_0000;
    assert(0x1_0000_0000_0000_0000int * 0x1_0000_0000_0000_0000int
        == 0x1_0000_0000_0000_0000_0000_0000_0000_0000int) by (nonlinear_arith);
    while hi - lo > 1
        invariant
            lo < hi <= 0x1_0000_0000_0000_0000,
            lo * lo <= n < hi * hi,
        decreases hi - lo,
    {
        let mid: u128 = lo + (hi - lo) / 2;
        assert(mid * mid < 0x1_0000_0000_0000_0000_0000_0000_0000_0000) by (nonlinear_arith)
            requires
                0 <= mid < 0x1_0000_0000_0000_0000,
        ;
        if mid * mid <= n {
            lo = mid;
        } else {
            hi = mid;
        }
    }
    proof {
        assert(hi == lo + 1);
        lemma_isqrt_unique(n as int, lo as int);
    }
    lo
}

/// The square root of a real.
pub fn real_sqrt(a: Real) -> (r: Real)
    requires
        in_range(a as int),
    ensures
        r == spec_sqrt(a),
        0 <= r,
        in_range(r as int),
{
    if a <= 0 {
        0
    } else {
        let wide: u128 = (a as u128) * (ONE as u128);
        let s: u128 = isqrt_wide(wide);
        proof {
            assert(s <= 0x4000_0000) by (nonlinear_arith)
                requires
                    0 <= s,
                    s * s <= wide,
                    wide <= 0x4000_0000 * 0x10_0000,
            ;
        }
        s as i64
    }
}

} // verus!
