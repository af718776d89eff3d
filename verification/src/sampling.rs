//! The random numbers that one bounce of a path uses.
use crate::math::vector::{gen_range, random_unit_v3, MAX_DRAWS, V3};
use crate::scalar::{in_range, lemma_product_bound, Real, ONE};
use rand::rngs::ThreadRng;
use vstd::prelude::*;

verus! {

/// What a material may draw on when it scatters a ray: a random direction
/// of length one and a random fraction.
#[derive(Clone, Copy, Debug)]
pub struct Sample {
    pub direction: V3,
    pub fraction: Real,
}

impl Sample {
    /// The direction fits the unit cube and the fraction lies from zero up
    /// to, but not including, one.
    pub open spec fn wf(self) -> bool {
        &&& self.direction.wf()
        &&& self.direction.within_unit_cube()
        &&& 0 <= self.fraction < ONE
    }

    /// Draws a sample.
    pub fn draw(rng: &mut ThreadRng) -> (s: Sample)
        ensures
            s.wf(),
    {
        let direction = random_unit_v3(rng);
        let fraction = gen_range(rng, 0, ONE);
        Sample { direction, fraction }
    }
}

/// What becomes of a point `(x, y)` drawn from the square around the
/// origin: the point itself where it lies in the unit disk, and nothing
/// where it does not, so that another point is drawn.
pub open spec fn spec_keep_disk_point(x: Real, y: Real) -> Option<(Real, Real)> {
    if x * x + y * y < ONE * ONE {
        Some((x, y))
    } else {
        None
    }
}

/// `p` is what `random_in_unit_disk` may return: a point of the square
/// around the origin that is kept, or the origin.
pub open spec fn is_disk_sample(p: (Real, Real)) -> bool {
    &&& -ONE <= p.0 < ONE
    &&& -ONE <= p.1 < ONE
    &&& p == (0i64, 0i64) || spec_keep_disk_point(p.0, p.1) == Some(p)
}

/// What becomes of the drawn point `(x, y)`: the point itself where it lies
/// in the unit disk, and nothing where another point has to be drawn.
pub fn keep_disk_point(x: Real, y: Real) -> (r: Option<(Real, Real)>)
    requires
        in_range(x as int),
        in_range(y as int),
    ensures
        r == spec_keep_disk_point(x, y),
{
    proof {
        lemma_product_bound(x as int, x as int, 0x4000_0000, 0x4000_0000);
        lemma_product_bound(y as int, y as int, 0x4000_0000, 0x4000_0000);
    }
    if x * x + y * y < ONE * ONE {
        Some((x, y))
    } else {
        None
    }
}

/// A random point of the unit disk: points are drawn from the square around
/// the origin until one lies in the disk. After `MAX_DRAWS` points outside
/// it the origin is returned.
pub fn random_in_unit_disk(rng: &mut ThreadRng) -> (p: (Real, Real))
    ensures
        is_disk_sample(p),
{
    let mut draws: u32 = 0;
    while draws < MAX_DRAWS
        invariant
            draws <= MAX_DRAWS,
        decreases MAX_DRAWS - draws,
    {
        let x = gen_range(rng, -ONE, ONE);
        let y = gen_range(rng, -ONE, ONE);
        match keep_disk_point(x, y) {
            Some(point) => {
                return point;
            },
            None => {},
        }
        draws += 1;
    }
    (0, 0)
}

/// Every one of `samples` is well formed.
pub open spec fn all_samples_wf(samples: Seq<Sample>) -> bool {
    forall|i: int| 0 <= i < samples.len() ==> (#[trigger] samples[i]).wf()
}

/// Draws `n` samples.
pub fn draw_samples(rng: &mut ThreadRng, n: usize) -> (samples: Vec<Sample>)
    ensures
        samples@.len() == n,
        all_samples_wf(samples@),
{
    let mut samples: Vec<Sample> = Vec::new();
    let mut i: usize = 0;
    while i < n
        invariant
            i <= n,
            samples@.len() == i,
            all_samples_wf(samples@),
        decreases n - i,
    {
        samples.push(Sample::draw(rng));
        i += 1;
    }
    samples
}

} // verus!
