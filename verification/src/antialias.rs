//! Where in a pixel its rays go.
use crate::math::vector::{gen_range, thread_rng};
use crate::scalar::{floor_div_wide, Real, ONE, ONE_WIDE};
use vstd::prelude::*;
use vstd::string::StringSliceAdditionalSpecFns;

verus! {

/// How the rays of a pixel are spread over it.
#[derive(Clone, Copy, Debug, PartialEq, Eq, Structural)]
pub enum AntialiasMethod {
    /// One ray through the middle of each cell of a grid.
    Normal,
    /// One ray through a random point of each cell of a grid.
    Jittered,
    /// Every ray through a random point of the pixel.
    Random,
}

/// The byte `b` with a capital letter of ASCII made small.
pub open spec fn spec_lower(b: u8) -> u8 {
    if 65 <= b <= 90 {
        (b + 32) as u8
    } else {
        b
    }
}

/// `bytes` spell `name`, which is in small letters, in whatever case.
pub open spec fn spells(bytes: Seq<u8>, name: Seq<u8>) -> bool {
    &&& bytes.len() == name.len()
    &&& forall|k: int| 0 <= k < name.len() ==> spec_lower(#[trigger] bytes[k]) == name[k]
}

/// The letters of "normal".
pub open spec fn name_normal() -> Seq<u8> {
    seq![110u8, 111u8, 114u8, 109u8, 97u8, 108u8]
}

/// The letters of "jittered".
pub open spec fn name_jittered() -> Seq<u8> {
    seq![106u8, 105u8, 116u8, 116u8, 101u8, 114u8, 101u8, 100u8]
}

/// The letters of "random".
pub open spec fn name_random() -> Seq<u8> {
    seq![114u8, 97u8, 110u8, 100u8, 111u8, 109u8]
}

/// The method that the bytes of a name name: "normal", "jittered" or
/// "random", in whatever case; `None` for every other name.
pub open spec fn spec_from_name(bytes: Seq<u8>) -> Option<AntialiasMethod> {
    if spells(bytes, name_normal()) {
        Some(AntialiasMethod::Normal)
    } else if spells(bytes, name_jittered()) {
        Some(AntialiasMethod::Jittered)
    } else if spells(bytes, name_random()) {
        Some(AntialiasMethod::Random)
    } else {
        None
    }
}

/// `bytes` spell `name` in whatever case.
fn spells_name(bytes: &[u8], name: &[u8]) -> (b: bool)
    ensures
        b == spells(bytes@, name@),
{
    if bytes.len() != name.len() {
        return false;
    }
    let mut k: usize = 0;
    while k < name.len()
        invariant
            k <= name.len(),
            bytes@.len() == name@.len(),
            forall|m: int| 0 <= m < k ==> spec_lower(#[trigger] bytes@[m]) == name@[m],
        decreases name.len() - k,
    {
        let b = bytes[k];
        let lower = if 65 <= b && b <= 90 {
            b + 32
        } else {
            b
        };
        if lower != name[k] {
            return false;
        }
        k += 1;
    }
    true
}

impl AntialiasMethod {
    /// The method that `name` names: "normal", "jittered" or "random", in
    /// whatever case; `None` for every other name.
    pub fn from_name(name: &str) -> (r: Option<AntialiasMethod>)
        ensures
            r == spec_from_name(name.spec_bytes()),
    {
        let bytes = name.as_bytes();
        let normal: [u8; 6] = [110, 111, 114, 109, 97, 108];
        let jittered: [u8; 8] = [106, 105, 116, 116, 101, 114, 101, 100];
        let random: [u8; 6] = [114, 97, 110, 100, 111, 109];
        assert(normal@ =~= name_normal());
        assert(jittered@ =~= name_jittered());
        assert(random@ =~= name_random());
        if spells_name(bytes, normal.as_slice()) {
            Some(AntialiasMethod::Normal)
        } else if spells_name(bytes, jittered.as_slice()) {
            Some(AntialiasMethod::Jittered)
        } else if spells_name(bytes, random.as_slice()) {
            Some(AntialiasMethod::Random)
        } else {
            None
        }
    }
}

impl std::str::FromStr for AntialiasMethod {
    type Err = ();

    /// The method that `s` names, in whatever case; an error for every
    /// other name.
    fn from_str(s: &str) -> (r: Result<AntialiasMethod, ()>)
        ensures
            r == match spec_from_name(s.spec_bytes()) {
                Some(method) => Ok::<AntialiasMethod, ()>(method),
                None => Err::<AntialiasMethod, ()>(()),
            },
    {
        match AntialiasMethod::from_name(s) {
            Some(method) => Ok(method),
            None => Err(()),
        }
    }
}

/// The fraction `(index + offset) / count` of a pixel's side, rounded down.
pub open spec fn spec_cell_offset(index: u16, offset: Real, count: u16) -> Real {
    ((index * ONE + offset) / (count as int)) as Real
}

/// The offset in the pixel, along both sides, of the ray of cell `(p, q)`
/// of a grid of `sqrt_rays_per_pixel` cells a side, for the two random
/// fractions `u1` and `u2`.
pub open spec fn spec_antialias(
    method: AntialiasMethod,
    sqrt_rays_per_pixel: u16,
    p: u16,
    q: u16,
    u1: Real,
    u2: Real,
) -> (Real, Real) {
    match method {
        AntialiasMethod::Normal => (
            spec_cell_offset(p, (ONE / 2) as Real, sqrt_rays_per_pixel),
            spec_cell_offset(q, (ONE / 2) as Real, sqrt_rays_per_pixel),
        ),
        AntialiasMethod::Jittered => (
            spec_cell_offset(p, u1, sqrt_rays_per_pixel),
            spec_cell_offset(q, u2, sqrt_rays_per_pixel),
        ),
        AntialiasMethod::Random => (u1, u2),
    }
}

/// `x` is a fraction: from zero up to, but not including, one.
pub open spec fn is_fraction(x: Real) -> bool {
    0 <= x < ONE
}

/// The fraction `(index + offset) / count` of a pixel's side.
fn cell_offset(index: u16, offset: Real, count: u16) -> (r: Real)
    requires
        index < count,
        is_fraction(offset),
    ensures
        r == spec_cell_offset(index, offset, count),
        is_fraction(r),
{
    let n: i128 = (index as i128) * ONE_WIDE + (offset as i128);
    proof {
        vstd::arithmetic::div_mod::lemma_div_pos_is_pos(n as int, count as int);
        assert(n < count * 0x10_0000);
        vstd::arithmetic::div_mod::lemma_div_by_multiple_is_strongly_ordered(
            n as int,
            count * 0x10_0000,
            0x10_0000,
            count as int,
        );
        vstd::arithmetic::div_mod::lemma_div_multiples_vanish(0x10_0000, count as int);
        assert(count * 0x10_0000 == 0x10_0000 * count) by (nonlinear_arith);
    }
    floor_div_wide(n, count as i128) as i64
}

/// The offset of the ray of cell `(p, q)` for the random fractions `u1` and
/// `u2`.
pub fn antialias_with(
    method: AntialiasMethod,
    sqrt_rays_per_pixel: u16,
    p: u16,
    q: u16,
    u1: Real,
    u2: Real,
) -> (r: (Real, Real))
    requires
        p < sqrt_rays_per_pixel,
        q < sqrt_rays_per_pixel,
        is_fraction(u1),
        is_fraction(u2),
    ensures
        r == spec_antialias(method, sqrt_rays_per_pixel, p, q, u1, u2),
        is_fraction(r.0),
        is_fraction(r.1),
{
    match method {
        AntialiasMethod::Normal => (
            cell_offset(p, ONE / 2, sqrt_rays_per_pixel),
            cell_offset(q, ONE / 2, sqrt_rays_per_pixel),
        ),
        AntialiasMethod::Jittered => (
            cell_offset(p, u1, sqrt_rays_per_pixel),
            cell_offset(q, u2, sqrt_rays_per_pixel),
        ),
        AntialiasMethod::Random => (u1, u2),
    }
}

/// The offset of the ray of cell `(p, q)`, with random fractions of the
/// calling thread's generator where the method asks for them.
pub fn antialias(method: AntialiasMethod, sqrt_rays_per_pixel: u16, p: u16, q: u16) -> (r: (
    Real,
    Real,
))
    requires
        p < sqrt_rays_per_pixel,
        q < sqrt_rays_per_pixel,
    ensures
        is_fraction(r.0),
        is_fraction(r.1),
        exists|u1: Real, u2: Real|
            is_fraction(u1) && is_fraction(u2) && r == #[trigger] spec_antialias(
                method,
                sqrt_rays_per_pixel,
                p,
                q,
                u1,
                u2,
            ),
{
    let mut rng = thread_rng();
    let u1 = gen_range(&mut rng, 0, ONE);
    let u2 = gen_range(&mut rng, 0, ONE);
    antialias_with(method, sqrt_rays_per_pixel, p, q, u1, u2)
}

/// The square of an integer.
pub open spec fn square(n: int) -> int {
    n * n
}

/// `x` is the square of an integer.
pub open spec fn is_perfect_square(x: int) -> bool {
    exists|n: int| #[trigger] square(n) == x
}

/// The side of the grid for `rays_per_pixel` rays: its square root where it
/// is a perfect square, `None` where it is not.
pub fn sqrt_rays_per_pixel(rays_per_pixel: u16) -> (r: Option<u16>)
    ensures
        r is Some <==> is_perfect_square(rays_per_pixel as int),
        r matches Some(n) ==> n * n == rays_per_pixel,
{
    let s: u128 = crate::scalar::isqrt_wide(rays_per_pixel as u128);
    assert(s <= 255) by (nonlinear_arith)
        requires
            0 <= s,
            s * s <= 65535,
    ;
    if s * s == rays_per_pixel as u128 {
        assert(square(s as int) == rays_per_pixel);
        Some(s as u16)
    } else {
        proof {
            if is_perfect_square(rays_per_pixel as int) {
                let n = choose|n: int| #[trigger] square(n) == rays_per_pixel as int;
                let m = if n < 0 {
                    -n
                } else {
                    n
                };
                assert(m * m == n * n) by (nonlinear_arith)
                    requires
                        m == n || m == -n,
                ;
                assert(crate::scalar::is_isqrt(rays_per_pixel as int, m)) by (nonlinear_arith)
                    requires
                        m >= 0,
                        m * m == rays_per_pixel,
                ;
                crate::scalar::lemma_isqrt_unique(rays_per_pixel as int, m);
            }
        }
        None
    }
}

} // verus!
