//! Three-component vectors, points and colours.
use crate::scalar::{
    floor_div_wide, in_range, is_isqrt, isqrt, isqrt_wide, lemma_isqrt_exists, lemma_product_bound,
    mul_wide, real_add, real_div, real_min, real_mul, real_neg, real_sqrt, real_sub, saturate,
    saturate_wide, spec_add, spec_div, spec_mul, spec_sqrt, spec_sub, Real, ONE, ONE_WIDE,
    VERY_SMALL_NUMBER,
};
use rand::rngs::ThreadRng;
use rand::Rng;
use vstd::prelude::*;

verus! {

/// A vector of three reals.
#[derive(Clone, Copy, Debug, PartialEq, Eq, Structural)]
pub struct V3 {
    pub x: Real,
    pub y: Real,
    pub z: Real,
}

/// A point in space.
pub type P3 = V3;

/// A linear-light colour: red, green and blue in `x`, `y` and `z`.
pub type Color = V3;

/// Twice the saturation bound: what a difference of two reals can reach.
pub const WIDE_BOUND: i128 = 0x8000_0000;

impl Default for V3 {
    /// The vector whose components are all zero.
    fn default() -> (v: V3)
        ensures
            v == (V3 { x: 0, y: 0, z: 0 }),
    {
        V3 { x: 0, y: 0, z: 0 }
    }
}

impl V3 {
    /// Every component lies within the saturation bounds.
    pub open spec fn wf(self) -> bool {
        in_range(self.x as int) && in_range(self.y as int) && in_range(self.z as int)
    }

    /// Every component lies between zero and one.
    pub open spec fn is_unit_color(self) -> bool {
        0 <= self.x <= ONE && 0 <= self.y <= ONE && 0 <= self.z <= ONE
    }

    /// The componentwise sum.
    pub open spec fn spec_plus(self, o: V3) -> V3 {
        V3 {
            x: spec_add(self.x, o.x) as Real,
            y: spec_add(self.y, o.y) as Real,
            z: spec_add(self.z, o.z) as Real,
        }
    }

    /// The componentwise difference.
    pub open spec fn spec_minus(self, o: V3) -> V3 {
        V3 {
            x: spec_sub(self.x, o.x) as Real,
            y: spec_sub(self.y, o.y) as Real,
            z: spec_sub(self.z, o.z) as Real,
        }
    }

    /// The vector with every sign changed.
    pub open spec fn spec_neg(self) -> V3 {
        V3 {
            x: saturate(-self.x) as Real,
            y: saturate(-self.y) as Real,
            z: saturate(-self.z) as Real,
        }
    }

    /// The vector stretched by `k`.
    pub open spec fn spec_scale(self, k: Real) -> V3 {
        V3 {
            x: spec_mul(self.x, k) as Real,
            y: spec_mul(self.y, k) as Real,
            z: spec_mul(self.z, k) as Real,
        }
    }

    /// The componentwise product.
    pub open spec fn spec_component_mul(self, o: V3) -> V3 {
        V3 {
            x: spec_mul(self.x, o.x) as Real,
            y: spec_mul(self.y, o.y) as Real,
            z: spec_mul(self.z, o.z) as Real,
        }
    }

    /// The componentwise quotient.
    pub open spec fn spec_component_div(self, o: V3) -> V3 {
        V3 {
            x: spec_div(self.x, o.x) as Real,
            y: spec_div(self.y, o.y) as Real,
            z: spec_div(self.z, o.z) as Real,
        }
    }

    /// The exact dot product, in units of `1 / ONE²`.
    pub open spec fn dot_wide(self, o: V3) -> int {
        self.x * o.x + self.y * o.y + self.z * o.z
    }

    /// The dot product as a real.
    pub open spec fn spec_dot(self, o: V3) -> int {
        saturate(self.dot_wide(o) / (ONE as int))
    }

    /// The cross product.
    pub open spec fn spec_cross(self, o: V3) -> V3 {
        V3 {
            x: saturate((self.y * o.z - self.z * o.y) / (ONE as int)) as Real,
            y: saturate((self.z * o.x - self.x * o.z) / (ONE as int)) as Real,
            z: saturate((self.x * o.y - self.y * o.x) / (ONE as int)) as Real,
        }
    }

    /// The length of the vector, rounded down.
    pub open spec fn spec_length(self) -> int {
        isqrt(self.dot_wide(self))
    }

    /// The vector divided by its length; the zero vector stays as it is.
    pub open spec fn spec_normalize(self) -> V3 {
        let len = self.spec_length();
        if len == 0 {
            self
        } else {
            V3 {
                x: ((self.x * ONE) / len) as Real,
                y: ((self.y * ONE) / len) as Real,
                z: ((self.z * ONE) / len) as Real,
            }
        }
    }

    /// No component exceeds one in absolute value.
    pub open spec fn within_unit_cube(self) -> bool {
        -ONE <= self.x <= ONE && -ONE <= self.y <= ONE && -ONE <= self.z <= ONE
    }

    pub fn new(x: Real, y: Real, z: Real) -> (v: V3)
        ensures
            v == (V3 { x, y, z }),
    {
        V3 { x, y, z }
    }

    /// The vector whose components are all zero.
    pub fn zero() -> (v: V3)
        ensures
            v == (V3 { x: 0, y: 0, z: 0 }),
            v.wf(),
    {
        V3 { x: 0, y: 0, z: 0 }
    }

    pub fn plus(&self, o: &V3) -> (r: V3)
        ensures
            r == self.spec_plus(*o),
            r.wf(),
    {
        V3 { x: real_add(self.x, o.x), y: real_add(self.y, o.y), z: real_add(self.z, o.z) }
    }

    pub fn minus(&self, o: &V3) -> (r: V3)
        ensures
            r == self.spec_minus(*o),
            r.wf(),
    {
        V3 { x: real_sub(self.x, o.x), y: real_sub(self.y, o.y), z: real_sub(self.z, o.z) }
    }

    pub fn neg(&self) -> (r: V3)
        ensures
            r == self.spec_neg(),
            r.wf(),
    {
        V3 { x: real_neg(self.x), y: real_neg(self.y), z: real_neg(self.z) }
    }

    pub fn scale(&self, k: Real) -> (r: V3)
        ensures
            r == self.spec_scale(k),
            r.wf(),
    {
        V3 { x: real_mul(self.x, k), y: real_mul(self.y, k), z: real_mul(self.z, k) }
    }

    pub fn component_mul(&self, o: &V3) -> (r: V3)
        ensures
            r == self.spec_component_mul(*o),
            r.wf(),
    {
        V3 { x: real_mul(self.x, o.x), y: real_mul(self.y, o.y), z: real_mul(self.z, o.z) }
    }

    pub fn component_div(&self, o: &V3) -> (r: V3)
        ensures
            r == self.spec_component_div(*o),
            r.wf(),
    {
        V3 { x: real_div(self.x, o.x), y: real_div(self.y, o.y), z: real_div(self.z, o.z) }
    }

    /// The exact dot product of two vectors whose components are at most
    /// twice the saturation bound.
    pub fn dot_exact(&self, o: &V3) -> (r: i128)
        requires
            -WIDE_BOUND <= self.x <= WIDE_BOUND,
            -WIDE_BOUND <= self.y <= WIDE_BOUND,
            -WIDE_BOUND <= self.z <= WIDE_BOUND,
            -WIDE_BOUND <= o.x <= WIDE_BOUND,
            -WIDE_BOUND <= o.y <= WIDE_BOUND,
            -WIDE_BOUND <= o.z <= WIDE_BOUND,
        ensures
            r == self.dot_wide(*o),
            -0xc000_0000_0000_0000 <= r <= 0xc000_0000_0000_0000,
    {
        let a: i128 = mul_wide(self.x as i128, o.x as i128, Ghost(0x8000_0000), Ghost(0x8000_0000));
        let b: i128 = mul_wide(self.y as i128, o.y as i128, Ghost(0x8000_0000), Ghost(0x8000_0000));
        let c: i128 = mul_wide(self.z as i128, o.z as i128, Ghost(0x8000_0000), Ghost(0x8000_0000));
        a + b + c
    }

    pub fn dot(&self, o: &V3) -> (r: Real)
        requires
            self.wf(),
            o.wf(),
        ensures
            r == self.spec_dot(*o),
            in_range(r as int),
    {
        let wide: i128 = self.dot_exact(o);
        saturate_wide(floor_div_wide(wide, ONE_WIDE))
    }

    pub fn cross(&self, o: &V3) -> (r: V3)
        requires
            self.wf(),
            o.wf(),
        ensures
            r == self.spec_cross(*o),
            r.wf(),
    {
        let yz: i128 = mul_wide(self.y as i128, o.z as i128, Ghost(0x4000_0000), Ghost(0x4000_0000));
        let zy: i128 = mul_wide(self.z as i128, o.y as i128, Ghost(0x4000_0000), Ghost(0x4000_0000));
        let zx: i128 = mul_wide(self.z as i128, o.x as i128, Ghost(0x4000_0000), Ghost(0x4000_0000));
        let xz: i128 = mul_wide(self.x as i128, o.z as i128, Ghost(0x4000_0000), Ghost(0x4000_0000));
        let xy: i128 = mul_wide(self.x as i128, o.y as i128, Ghost(0x4000_0000), Ghost(0x4000_0000));
        let yx: i128 = mul_wide(self.y as i128, o.x as i128, Ghost(0x4000_0000), Ghost(0x4000_0000));
        V3 {
            x: saturate_wide(floor_div_wide(yz - zy, ONE_WIDE)),
            y: saturate_wide(floor_div_wide(zx - xz, ONE_WIDE)),
            z: saturate_wide(floor_div_wide(xy - yx, ONE_WIDE)),
        }
    }

    pub fn magnitude_squared(&self) -> (r: Real)
        requires
            self.wf(),
        ensures
            r == self.spec_dot(*self),
            0 <= r,
            in_range(r as int),
    {
        proof {
            assert(self.x * self.x >= 0) by (nonlinear_arith);
            assert(self.y * self.y >= 0) by (nonlinear_arith);
            assert(self.z * self.z >= 0) by (nonlinear_arith);
            vstd::arithmetic::div_mod::lemma_div_pos_is_pos(self.dot_wide(*self), 0x10_0000);
        }
        self.dot(self)
    }

    /// The length of the vector.
    pub fn length(&self) -> (r: Real)
        requires
            self.wf(),
        ensures
            r == self.spec_length(),
            is_isqrt(self.dot_wide(*self), r as int),
            0 <= r < 0x8000_0000,
    {
        proof {
            assert(self.x * self.x >= 0) by (nonlinear_arith);
            assert(self.y * self.y >= 0) by (nonlinear_arith);
            assert(self.z * self.z >= 0) by (nonlinear_arith);
        }
        let wide: i128 = self.dot_exact(self);
        let s: u128 = isqrt_wide(wide as u128);
        proof {
            lemma_product_bound(self.x as int, self.x as int, 0x4000_0000, 0x4000_0000);
            lemma_product_bound(self.y as int, self.y as int, 0x4000_0000, 0x4000_0000);
            lemma_product_bound(self.z as int, self.z as int, 0x4000_0000, 0x4000_0000);
            assert(s < 0x8000_0000) by (nonlinear_arith)
                requires
                    0 <= s,
                    s * s <= wide,
                    wide <= 0x3000_0000_0000_0000,
            ;
        }
        s as i64
    }

    /// The vector divided by its length.
    pub fn normalize(&self) -> (r: V3)
        requires
            self.wf(),
        ensures
            r == self.spec_normalize(),
            r.wf(),
            self.spec_length() != 0 ==> r.within_unit_cube(),
    {
        let len: Real = self.length();
        if len == 0 {
            *self
        } else {
            proof {
                lemma_component_below_length(*self, len as int);
            }
            let x: i128 = floor_div_wide(self.x as i128 * ONE_WIDE, len as i128);
            let y: i128 = floor_div_wide(self.y as i128 * ONE_WIDE, len as i128);
            let z: i128 = floor_div_wide(self.z as i128 * ONE_WIDE, len as i128);
            proof {
                lemma_scaled_quotient_bound(self.x as int, len as int);
                lemma_scaled_quotient_bound(self.y as int, len as int);
                lemma_scaled_quotient_bound(self.z as int, len as int);
            }
            V3 { x: x as i64, y: y as i64, z: z as i64 }
        }
    }
}

/// `rand::rngs::ThreadRng`, the generator of random numbers that each thread
/// has for itself. Nothing is known of what is inside it.
#[verifier::external_type_specification]
#[verifier::external_body]
pub struct ExThreadRng(ThreadRng);

/// `Rng::gen_range` of rand on the half-open range `low..high` of integers.
/// Taken on trust: it returns an integer from `low` up to, but not
/// including, `high`. It panics on an empty range, so `low < high` is asked
/// for. Which integer comes back is left open. Like running out of memory,
/// one panic is beyond any `requires`: the generator reseeds itself from the
/// operating system from time to time, and panics if that fails.
#[verifier::external_body]
pub(crate) fn gen_range(rng: &mut ThreadRng, low: i64, high: i64) -> (r: i64)
    requires
        low < high,
    ensures
        low <= r < high,
{
    rng.gen_range(low..high)
}

/// `rand::thread_rng`: a handle to the calling thread's generator. Nothing
/// is claimed of it. It panics if the operating system gives the thread's
/// generator no first seed, which no `requires` can exclude.
#[verifier::external_body]
pub(crate) fn thread_rng() -> ThreadRng {
    rand::thread_rng()
}

/// How often a random point is drawn before a fixed one is taken instead.
pub const MAX_DRAWS: u32 = 64;

/// A point drawn from the cube around the origin is kept as a direction: it
/// lies in the unit ball and not at its centre.
pub open spec fn is_kept(c: V3) -> bool {
    VERY_SMALL_NUMBER < c.spec_dot(c) <= ONE
}

/// What becomes of a point drawn from the cube around the origin: the
/// direction towards it where it is kept, and nothing where it is not, so
/// that another point is drawn.
pub open spec fn spec_keep_direction(c: V3) -> Option<V3> {
    if is_kept(c) {
        Some(c.spec_normalize())
    } else {
        None
    }
}

/// `v` is what `random_unit_v3` may return: the direction kept of some
/// point of the cube, or the `x` axis.
pub open spec fn is_unit_sample(v: V3) -> bool {
    v == (V3 { x: ONE, y: 0, z: 0 }) || exists|c: V3|
        c.wf() && c.within_unit_cube() && #[trigger] spec_keep_direction(c) == Some(v)
}

/// What becomes of the drawn point `c`: the direction towards it where it
/// lies in the unit ball and not at its centre, and nothing where another
/// point has to be drawn.
pub fn keep_direction(c: &V3) -> (r: Option<V3>)
    requires
        c.wf(),
    ensures
        r == spec_keep_direction(*c),
        r matches Some(v) ==> v.wf() && v.within_unit_cube(),
{
    let magnitude_squared = c.magnitude_squared();
    if magnitude_squared <= ONE && magnitude_squared > VERY_SMALL_NUMBER {
        proof {
            lemma_kept_has_length(*c);
        }
        Some(c.normalize())
    } else {
        None
    }
}

/// A random direction of length one: points are drawn from the cube around
/// the origin until one lies in the unit ball, which is then normalised.
/// After `MAX_DRAWS` points outside the ball the `x` axis is returned.
pub fn random_unit_v3(rng: &mut ThreadRng) -> (v: V3)
    ensures
        is_unit_sample(v),
        v.wf(),
        v.within_unit_cube(),
{
    let mut draws: u32 = 0;
    while draws < MAX_DRAWS
        invariant
            draws <= MAX_DRAWS,
        decreases MAX_DRAWS - draws,
    {
        let random = V3 {
            x: gen_range(rng, -ONE, ONE),
            y: gen_range(rng, -ONE, ONE),
            z: gen_range(rng, -ONE, ONE),
        };
        match keep_direction(&random) {
            Some(direction) => {
                return direction;
            },
            None => {},
        }
        draws += 1;
    }
    V3 { x: ONE, y: 0, z: 0 }
}

/// A vector whose squared length is a positive real has a length.
pub proof fn lemma_kept_has_length(c: V3)
    requires
        c.spec_dot(c) > 0,
    ensures
        c.spec_length() != 0,
{
    let n = c.dot_wide(c);
    assert(c.x * c.x >= 0) by (nonlinear_arith);
    assert(c.y * c.y >= 0) by (nonlinear_arith);
    assert(c.z * c.z >= 0) by (nonlinear_arith);
    if n < 0x10_0000 {
        vstd::arithmetic::div_mod::lemma_basic_div(n, 0x10_0000);
    }
    assert(n >= 1);
    lemma_isqrt_exists(n);
    let r = isqrt(n);
    assert(is_isqrt(n, r));
    if r == 0 {
        assert((r + 1) * (r + 1) == 1) by (nonlinear_arith)
            requires
                r == 0,
        ;
    }
}

/// The mirror image of `vec` at a surface with the unit normal `normal`.
pub open spec fn spec_reflect(vec: V3, normal: V3) -> V3 {
    let d = vec.spec_dot(normal) as Real;
    vec.spec_minus(normal.spec_scale(spec_add(d, d) as Real))
}

/// The cosine of the angle at which the unit vector `vec` meets a surface
/// with the unit normal `normal` that faces it.
pub open spec fn spec_cos_theta(vec: V3, normal: V3) -> Real {
    let d = vec.spec_dot(normal);
    saturate(-(if d <= ONE { d } else { ONE as int })) as Real
}

/// The part of the refracted ray that runs along the surface.
pub open spec fn spec_refract_perpendicular(
    vec: V3,
    normal: V3,
    relative_refractive_index: Real,
) -> V3 {
    vec.spec_plus(normal.spec_scale(spec_cos_theta(vec, normal))).spec_scale(
        relative_refractive_index,
    )
}

/// The unit vector `vec` bent by Snell's law at a surface with the unit
/// normal `normal`, for the given ratio of the refractive indices.
pub open spec fn spec_refract(vec: V3, normal: V3, relative_refractive_index: Real) -> V3 {
    let perpendicular = spec_refract_perpendicular(vec, normal, relative_refractive_index);
    let rest = spec_sub(ONE, perpendicular.spec_dot(perpendicular) as Real) as Real;
    let parallel = normal.spec_scale(saturate(-spec_sqrt(rest)) as Real);
    perpendicular.spec_plus(parallel)
}

/// The mirror image of `vec` at a surface with the unit normal `normal`.
pub fn reflect(vec: &V3, normal: &V3) -> (r: V3)
    requires
        vec.wf(),
        normal.wf(),
    ensures
        r == spec_reflect(*vec, *normal),
        r.wf(),
{
    let d = vec.dot(normal);
    vec.minus(&normal.scale(real_add(d, d)))
}

/// The unit vector `vec` bent by Snell's law.
pub fn refract(vec: &V3, normal: &V3, relative_refractive_index: Real) -> (r: V3)
    requires
        vec.wf(),
        normal.wf(),
    ensures
        r == spec_refract(*vec, *normal, relative_refractive_index),
        r.wf(),
{
    let cos_theta = real_neg(real_min(vec.dot(normal), ONE));
    let perpendicular = vec.plus(&normal.scale(cos_theta)).scale(relative_refractive_index);
    let rest = real_sub(ONE, perpendicular.magnitude_squared());
    let parallel = normal.scale(real_neg(real_sqrt(rest)));
    perpendicular.plus(&parallel)
}

/// The determinant of the matrix with the columns `c0`, `c1` and `c2`, in
/// units of `1 / ONE³`.
pub open spec fn spec_det3(c0: V3, c1: V3, c2: V3) -> int {
    c0.x * (c1.y * c2.z - c1.z * c2.y) - c1.x * (c0.y * c2.z - c0.z * c2.y) + c2.x * (c0.y * c1.z
        - c0.z * c1.y)
}

/// The determinant of the matrix with the columns `c0`, `c1` and `c2`.
pub fn det3(c0: &V3, c1: &V3, c2: &V3) -> (r: i128)
    requires
        c0.wf(),
        c1.wf(),
        c2.wf(),
    ensures
        r == spec_det3(*c0, *c1, *c2),
        -0x1800_0000_0000_0000_0000_0000 <= r <= 0x1800_0000_0000_0000_0000_0000,
{
    let m0: i128 = minor(c1.y, c2.z, c1.z, c2.y);
    let m1: i128 = minor(c0.y, c2.z, c0.z, c2.y);
    let m2: i128 = minor(c0.y, c1.z, c0.z, c1.y);
    let t0: i128 = mul_wide(c0.x as i128, m0, Ghost(0x4000_0000), Ghost(0x2000_0000_0000_0000));
    let t1: i128 = mul_wide(c1.x as i128, m1, Ghost(0x4000_0000), Ghost(0x2000_0000_0000_0000));
    let t2: i128 = mul_wide(c2.x as i128, m2, Ghost(0x4000_0000), Ghost(0x2000_0000_0000_0000));
    t0 - t1 + t2
}

/// The two-by-two determinant `a d - b c`.
fn minor(a: Real, d: Real, b: Real, c: Real) -> (r: i128)
    requires
        in_range(a as int),
        in_range(b as int),
        in_range(c as int),
        in_range(d as int),
    ensures
        r == a * d - b * c,
        -0x2000_0000_0000_0000 <= r <= 0x2000_0000_0000_0000,
{
    let ad: i128 = mul_wide(a as i128, d as i128, Ghost(0x4000_0000), Ghost(0x4000_0000));
    let bc: i128 = mul_wide(b as i128, c as i128, Ghost(0x4000_0000), Ghost(0x4000_0000));
    ad - bc
}

/// No component of a vector is longer than the vector.
pub proof fn lemma_component_below_length(v: V3, len: int)
    requires
        is_isqrt(v.dot_wide(v), len),
    ensures
        -len <= v.x <= len,
        -len <= v.y <= len,
        -len <= v.z <= len,
{
    let (x, y, z) = (v.x as int, v.y as int, v.z as int);
    assert(-len <= x <= len && -len <= y <= len && -len <= z <= len) by (nonlinear_arith)
        requires
            0 <= len,
            x * x + y * y + z * z < (len + 1) * (len + 1),
    ;
}

/// A value no larger than `len` in absolute value, divided by `len`, is at
/// most one.
pub proof fn lemma_scaled_quotient_bound(x: int, len: int)
    requires
        len > 0,
        -len <= x <= len,
    ensures
        -0x10_0000 <= (x * 0x10_0000) / len <= 0x10_0000,
{
    vstd::arithmetic::div_mod::lemma_div_is_ordered(x * 0x10_0000, len * 0x10_0000, len);
    vstd::arithmetic::div_mod::lemma_div_is_ordered(-len * 0x10_0000, x * 0x10_0000, len);
    vstd::arithmetic::div_mod::lemma_div_multiples_vanish(0x10_0000, len);
    vstd::arithmetic::div_mod::lemma_div_multiples_vanish(-0x10_0000, len);
    assert(len * 0x10_0000 == 0x10_0000 * len) by (nonlinear_arith);
    assert(-len * 0x10_0000 == (-0x10_0000) * len) by (nonlinear_arith);
}

} // verus!
