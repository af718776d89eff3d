//! The framebuffer: for every pixel the sum of the colours sampled so far
//! and their number.
use crate::math::vector::{Color, V3};
use crate::scalar::{floor_div_wide, in_range, Real, INFINITY};
use vstd::prelude::*;

verus! {

pub struct Framebuffer {
    pub width: u32,
    pub height: u32,
    pub pixels: Vec<V3>,
    pub samples: Vec<u32>,
}

/// A sum of colours, channel by channel.
pub struct ColorSum {
    pub r: int,
    pub g: int,
    pub b: int,
}

/// What a framebuffer holds: the size of the image and, row by row from
/// pixel `(0, 0)`, the sum of the colours and the number of samples of each
/// pixel.
pub struct FramebufferView {
    pub width: int,
    pub height: int,
    pub sums: Seq<ColorSum>,
    pub counts: Seq<int>,
}

/// One call of `add_samples`.
pub struct Accumulation {
    pub i: int,
    pub j: int,
    pub color: ColorSum,
    pub samples: int,
}

/// The colour `color` as a sum of one colour.
pub open spec fn sum_of(color: V3) -> ColorSum {
    ColorSum { r: color.x as int, g: color.y as int, b: color.z as int }
}

/// No channel of `color` exceeds what `samples` colours within the
/// saturation bounds can add up to.
pub open spec fn is_sum_of(color: V3, samples: int) -> bool {
    &&& -samples * INFINITY <= color.x <= samples * INFINITY
    &&& -samples * INFINITY <= color.y <= samples * INFINITY
    &&& -samples * INFINITY <= color.z <= samples * INFINITY
}

/// The mean of `count` colours that add up to `sum`, rounded down; black
/// for no colour at all.
pub open spec fn spec_average(sum: ColorSum, count: int) -> Color {
    if count <= 0 {
        V3 { x: 0, y: 0, z: 0 }
    } else {
        V3 { x: (sum.r / count) as Real, y: (sum.g / count) as Real, z: (sum.b / count) as Real }
    }
}

impl FramebufferView {
    /// The place of pixel `(i, j)` in the two lists.
    pub open spec fn index(self, i: int, j: int) -> int {
        i + j * self.width
    }

    /// Pixel `(i, j)` is a pixel of the image.
    pub open spec fn holds(self, i: int, j: int) -> bool {
        0 <= i < self.width && 0 <= j < self.height
    }

    /// The buffer after `samples` samples that add up to `color` have been
    /// added to pixel `(i, j)`.
    pub open spec fn add_samples(self, i: int, j: int, color: ColorSum, samples: int) -> Self {
        let k = self.index(i, j);
        FramebufferView {
            sums: self.sums.update(
                k,
                ColorSum {
                    r: self.sums[k].r + color.r,
                    g: self.sums[k].g + color.g,
                    b: self.sums[k].b + color.b,
                },
            ),
            counts: self.counts.update(k, self.counts[k] + samples),
            ..self
        }
    }

    /// The buffer after one accumulation.
    pub open spec fn apply(self, call: Accumulation) -> Self {
        self.add_samples(call.i, call.j, call.color, call.samples)
    }

    /// The buffer after the first `n` of `calls`, one after the other.
    pub open spec fn apply_all(self, calls: Seq<Accumulation>, n: int) -> Self
        decreases n,
    {
        if n <= 0 || n > calls.len() {
            self
        } else {
            self.apply_all(calls, n - 1).apply(calls[n - 1])
        }
    }

    /// The finished image: the mean colour of every pixel.
    pub open spec fn averages(self) -> Seq<Color> {
        Seq::new(self.sums.len(), |k: int| spec_average(self.sums[k], self.counts[k]))
    }
}

impl View for Framebuffer {
    type V = FramebufferView;

    open spec fn view(&self) -> FramebufferView {
        FramebufferView {
            width: self.width as int,
            height: self.height as int,
            sums: Seq::new(self.pixels@.len(), |k: int| sum_of(self.pixels@[k])),
            counts: Seq::new(self.samples@.len(), |k: int| self.samples@[k] as int),
        }
    }
}

impl Framebuffer {
    /// Both lists have a place for every pixel, and no sum exceeds what
    /// the samples counted can add up to.
    pub open spec fn wf(&self) -> bool {
        &&& self.pixels@.len() == self.width * self.height
        &&& self.samples@.len() == self.width * self.height
        &&& forall|k: int|
            0 <= k < self.pixels@.len() ==> is_sum_of(
                #[trigger] self.pixels@[k],
                self.samples@[k] as int,
            )
    }

    /// A buffer of `width` by `height` pixels without any sample.
    pub fn new(width: u32, height: u32) -> (fb: Framebuffer)
        requires
            width * height <= usize::MAX,
        ensures
            fb.wf(),
            fb.width == width,
            fb.height == height,
            forall|k: int| 0 <= k < width * height ==> #[trigger] fb.samples@[k] == 0,
            forall|k: int|
                0 <= k < width * height ==> #[trigger] fb.pixels@[k] == (V3 { x: 0, y: 0, z: 0 }),
    {
        assert(width * height >= 0) by (nonlinear_arith)
            requires
                width >= 0,
                height >= 0,
        ;
        let cells: usize = (width as usize) * (height as usize);
        let mut pixels: Vec<V3> = Vec::new();
        let mut samples: Vec<u32> = Vec::new();
        let mut k: usize = 0;
        while k < cells
            invariant
                k <= cells,
                pixels@.len() == k,
                samples@.len() == k,
                forall|m: int| 0 <= m < k ==> #[trigger] samples@[m] == 0,
                forall|m: int| 0 <= m < k ==> #[trigger] pixels@[m] == (V3 { x: 0, y: 0, z: 0 }),
            decreases cells - k,
        {
            pixels.push(V3 { x: 0, y: 0, z: 0 });
            samples.push(0);
            k += 1;
        }
        Framebuffer { width, height, pixels, samples }
    }

    /// The width and the height of the image.
    pub fn dimensions(&self) -> (d: (u32, u32))
        ensures
            d == (self.width, self.height),
    {
        (self.width, self.height)
    }

    /// The place of pixel `(i, j)` in the two lists.
    pub fn index(&self, i: u32, j: u32) -> (k: usize)
        requires
            self.wf(),
            i < self.width,
            j < self.height,
        ensures
            k == self@.index(i as int, j as int),
            k < self.pixels@.len(),
    {
        assert(0 <= j * self.width && i + j * self.width < self.width * self.height)
            by (nonlinear_arith)
            requires
                0 <= i < self.width,
                0 <= j < self.height,
        ;
        let n: usize = self.pixels.len();
        (i as usize) + (j as usize) * (self.width as usize)
    }

    /// Adds `samples` samples that add up to `color` to pixel `(i, j)`.
    pub fn add_samples(&mut self, i: u32, j: u32, color: Color, samples: u32)
        requires
            old(self).wf(),
            i < old(self).width,
            j < old(self).height,
            is_sum_of(color, samples as int),
            old(self).samples@[old(self)@.index(i as int, j as int)] + samples <= u32::MAX,
        ensures
            final(self)@ == old(self)@.add_samples(
                i as int,
                j as int,
                sum_of(color),
                samples as int,
            ),
            final(self).wf(),
            final(self).width == old(self).width,
            final(self).height == old(self).height,
    {
        let idx = self.index(i, j);
        let sum = self.pixels[idx];
        let count = self.samples[idx];
        proof {
            lemma_sum_of_sums(sum, count as int, color, samples as int);
        }
        let total = V3 { x: sum.x + color.x, y: sum.y + color.y, z: sum.z + color.z };
        self.pixels[idx] = total;
        self.samples[idx] = count + samples;
        proof {
            assert(final(self)@.sums =~= old(self)@.add_samples(
                i as int,
                j as int,
                sum_of(color),
                samples as int,
            ).sums);
            assert(final(self)@.counts =~= old(self)@.add_samples(
                i as int,
                j as int,
                sum_of(color),
                samples as int,
            ).counts);
        }
    }

    /// The mean colour of pixel `(i, j)`.
    pub fn get_pixel(&self, i: u32, j: u32) -> (c: Color)
        requires
            self.wf(),
            i < self.width,
            j < self.height,
        ensures
            c == self@.averages()[self@.index(i as int, j as int)],
            c.wf(),
    {
        let idx = self.index(i, j);
        average(&self.pixels[idx], self.samples[idx])
    }

    /// The finished image: the mean colour of every pixel, row by row.
    pub fn get_pixels(&self) -> (image: Vec<Color>)
        requires
            self.wf(),
        ensures
            image@ =~= self@.averages(),
            forall|k: int| 0 <= k < image@.len() ==> (#[trigger] image@[k]).wf(),
    {
        let mut image: Vec<Color> = Vec::new();
        let mut k: usize = 0;
        while k < self.pixels.len()
            invariant
                k <= self.pixels@.len(),
                self.wf(),
                image@.len() == k,
                forall|m: int| 0 <= m < k ==> #[trigger] image@[m] == self@.averages()[m],
                forall|m: int| 0 <= m < k ==> (#[trigger] image@[m]).wf(),
            decreases self.pixels@.len() - k,
        {
            image.push(average(&self.pixels[k], self.samples[k]));
            k += 1;
        }
        image
    }
}

/// A sum of fewer than `2^32` colours fits a machine word.
pub proof fn lemma_sum_bounds(sum: V3, count: int)
    requires
        is_sum_of(sum, count),
        0 <= count <= u32::MAX,
    ensures
        -0x4000_0000_0000_0000 <= sum.x <= 0x4000_0000_0000_0000,
        -0x4000_0000_0000_0000 <= sum.y <= 0x4000_0000_0000_0000,
        -0x4000_0000_0000_0000 <= sum.z <= 0x4000_0000_0000_0000,
{
    assert(count * INFINITY <= 0x4000_0000_0000_0000) by (nonlinear_arith)
        requires
            0 <= count <= 0xffff_ffff,
            INFINITY == 0x4000_0000,
    ;
    assert(-count * INFINITY == -(count * INFINITY)) by (nonlinear_arith);
}

/// Two sums of colours add up to a sum of as many colours as both have
/// together.
pub proof fn lemma_sum_of_sums(a: V3, na: int, b: V3, nb: int)
    requires
        is_sum_of(a, na),
        is_sum_of(b, nb),
        0 <= na,
        0 <= nb,
        na + nb <= u32::MAX,
    ensures
        -0x4000_0000_0000_0000 <= a.x + b.x <= 0x4000_0000_0000_0000,
        -0x4000_0000_0000_0000 <= a.y + b.y <= 0x4000_0000_0000_0000,
        -0x4000_0000_0000_0000 <= a.z + b.z <= 0x4000_0000_0000_0000,
        is_sum_of(
            V3 { x: (a.x + b.x) as Real, y: (a.y + b.y) as Real, z: (a.z + b.z) as Real },
            na + nb,
        ),
{
    assert(-(na + nb) * INFINITY == -na * INFINITY + -nb * INFINITY) by (nonlinear_arith);
    assert((na + nb) * INFINITY == na * INFINITY + nb * INFINITY) by (nonlinear_arith);
    assert((na + nb) * INFINITY <= 0x4000_0000_0000_0000) by (nonlinear_arith)
        requires
            0 <= na + nb <= 0xffff_ffff,
            INFINITY == 0x4000_0000,
    ;
}

/// The mean of `count` colours that add up to `sum`.
fn average(sum: &V3, count: u32) -> (c: Color)
    requires
        is_sum_of(*sum, count as int),
    ensures
        c == spec_average(sum_of(*sum), count as int),
        c.wf(),
{
    if count == 0 {
        return V3 { x: 0, y: 0, z: 0 };
    }
    proof {
        lemma_sum_bounds(*sum, count as int);
        lemma_mean_in_range(sum.x as int, count as int);
        lemma_mean_in_range(sum.y as int, count as int);
        lemma_mean_in_range(sum.z as int, count as int);
    }
    V3 {
        x: floor_div_wide(sum.x as i128, count as i128) as i64,
        y: floor_div_wide(sum.y as i128, count as i128) as i64,
        z: floor_div_wide(sum.z as i128, count as i128) as i64,
    }
}

/// The mean of values within the saturation bounds lies within them.
pub proof fn lemma_mean_in_range(sum: int, count: int)
    requires
        count > 0,
        -count * INFINITY <= sum <= count * INFINITY,
    ensures
        in_range(sum / count),
{
    vstd::arithmetic::div_mod::lemma_div_is_ordered(sum, count * INFINITY, count);
    vstd::arithmetic::div_mod::lemma_div_is_ordered(-count * INFINITY, sum, count);
    vstd::arithmetic::div_mod::lemma_div_multiples_vanish(INFINITY as int, count);
    vstd::arithmetic::div_mod::lemma_div_multiples_vanish(-(INFINITY as int), count);
    assert(count * INFINITY == count * (INFINITY as int));
    assert(-count * INFINITY == count * (-(INFINITY as int))) by (nonlinear_arith);
}

/// What an accumulation does to the two lists of a framebuffer: the pixel
/// it names gains the colours and the samples, and every other pixel stays
/// as it is.
pub proof fn lemma_accumulation_is_local(
    before: &Framebuffer,
    after: &Framebuffer,
    i: int,
    j: int,
    color: V3,
    samples: int,
)
    requires
        after@ == before@.add_samples(i, j, sum_of(color), samples),
        0 <= before@.index(i, j) < before.pixels@.len(),
        before.pixels@.len() == before.samples@.len(),
    ensures
        after.pixels@.len() == before.pixels@.len(),
        after.samples@.len() == before.samples@.len(),
        forall|k: int|
            0 <= k < before.pixels@.len() && k != before@.index(i, j) ==> #[trigger] after.pixels@[k]
                == before.pixels@[k],
        forall|k: int|
            0 <= k < before.pixels@.len() && k != before@.index(i, j) ==> #[trigger] after.samples@[k]
                == before.samples@[k],
        after.pixels@[before@.index(i, j)].x == before.pixels@[before@.index(i, j)].x + color.x,
        after.pixels@[before@.index(i, j)].y == before.pixels@[before@.index(i, j)].y + color.y,
        after.pixels@[before@.index(i, j)].z == before.pixels@[before@.index(i, j)].z + color.z,
        after.samples@[before@.index(i, j)] == before.samples@[before@.index(i, j)] + samples,
{
    let idx = before@.index(i, j);
    let target = before@.add_samples(i, j, sum_of(color), samples);
    assert(after@.sums.len() == after.pixels@.len());
    assert(after@.counts.len() == after.samples@.len());
    assert(target.sums.len() == before.pixels@.len());
    assert(target.counts.len() == before.samples@.len());
    assert forall|k: int| 0 <= k < before.pixels@.len() && k != idx implies #[trigger] after.pixels@[k]
        == before.pixels@[k] by {
        assert(after@.sums[k] == target.sums[k]);
        assert(target.sums[k] == before@.sums[k]);
        assert(sum_of(after.pixels@[k]) == sum_of(before.pixels@[k]));
    }
    assert forall|k: int|
        0 <= k < before.pixels@.len() && k != idx implies #[trigger] after.samples@[k]
        == before.samples@[k] by {
        assert(after@.counts[k] == target.counts[k]);
        assert(target.counts[k] == before@.counts[k]);
    }
    assert(after@.sums[idx] == target.sums[idx]);
    assert(after@.counts[idx] == target.counts[idx]);
    assert(before@.sums[idx] == sum_of(before.pixels@[idx]));
    assert(before@.counts[idx] == before.samples@[idx]);
}

/// Two accumulations can be done in either order.
pub proof fn lemma_add_samples_commute(fb: FramebufferView, a: Accumulation, b: Accumulation)
    requires
        0 <= fb.index(a.i, a.j) < fb.sums.len(),
        0 <= fb.index(b.i, b.j) < fb.sums.len(),
        fb.counts.len() == fb.sums.len(),
    ensures
        fb.apply(a).apply(b) == fb.apply(b).apply(a),
{
    let ab = fb.apply(a).apply(b);
    let ba = fb.apply(b).apply(a);
    assert(ab.sums =~= ba.sums);
    assert(ab.counts =~= ba.counts);
}

/// Two pixels of the image that differ have different places in the lists.
pub proof fn lemma_index_is_one_to_one(fb: FramebufferView, i1: int, j1: int, i2: int, j2: int)
    requires
        fb.holds(i1, j1),
        fb.holds(i2, j2),
        (i1, j1) != (i2, j2),
    ensures
        fb.index(i1, j1) != fb.index(i2, j2),
        0 <= fb.index(i1, j1) < fb.width * fb.height,
        0 <= fb.index(i2, j2) < fb.width * fb.height,
{
    let w = fb.width;
    assert(fb.index(i1, j1) != fb.index(i2, j2)) by (nonlinear_arith)
        requires
            0 <= i1 < w,
            0 <= i2 < w,
            (i1, j1) != (i2, j2),
            fb.index(i1, j1) == i1 + j1 * w,
            fb.index(i2, j2) == i2 + j2 * w,
    ;
    assert(0 <= j1 * w && i1 + j1 * w < w * fb.height) by (nonlinear_arith)
        requires
            0 <= i1 < w,
            0 <= j1 < fb.height,
    ;
    assert(0 <= j2 * w && i2 + j2 * w < w * fb.height) by (nonlinear_arith)
        requires
            0 <= i2 < w,
            0 <= j2 < fb.height,
    ;
}

/// Two accumulations on two different pixels, in either order: each of the
/// two pixels gains its own colours and samples, every other pixel stays as
/// it is, and so does the size of the image.
pub proof fn lemma_two_pixels(fb: FramebufferView, a: Accumulation, b: Accumulation)
    requires
        fb.holds(a.i, a.j),
        fb.holds(b.i, b.j),
        (a.i, a.j) != (b.i, b.j),
        fb.sums.len() == fb.width * fb.height,
        fb.counts.len() == fb.width * fb.height,
    ensures
        fb.apply(a).apply(b) == fb.apply(b).apply(a),
        ({
            let after = fb.apply(a).apply(b);
            let ka = fb.index(a.i, a.j);
            let kb = fb.index(b.i, b.j);
            &&& after.width == fb.width
            &&& after.height == fb.height
            &&& after.sums.len() == fb.sums.len()
            &&& after.counts.len() == fb.counts.len()
            &&& after.sums[ka] == (ColorSum {
                r: fb.sums[ka].r + a.color.r,
                g: fb.sums[ka].g + a.color.g,
                b: fb.sums[ka].b + a.color.b,
            })
            &&& after.counts[ka] == fb.counts[ka] + a.samples
            &&& after.sums[kb] == (ColorSum {
                r: fb.sums[kb].r + b.color.r,
                g: fb.sums[kb].g + b.color.g,
                b: fb.sums[kb].b + b.color.b,
            })
            &&& after.counts[kb] == fb.counts[kb] + b.samples
            &&& forall|k: int|
                0 <= k < fb.sums.len() && k != ka && k != kb ==> #[trigger] after.sums[k]
                    == fb.sums[k] && after.counts[k] == fb.counts[k]
        }),
{
    lemma_index_is_one_to_one(fb, a.i, a.j, b.i, b.j);
    lemma_add_samples_commute(fb, a, b);
}

/// The accumulation names a pixel that the buffer has a place for.
pub open spec fn is_valid_for(call: Accumulation, fb: FramebufferView) -> bool {
    0 <= fb.index(call.i, call.j) < fb.sums.len()
}

/// The buffer has as many counts as sums.
pub open spec fn is_even(fb: FramebufferView) -> bool {
    fb.counts.len() == fb.sums.len()
}

/// A run of accumulations changes neither the size of the image nor the
/// length of the lists.
pub proof fn lemma_apply_all_keeps_shape(fb: FramebufferView, calls: Seq<Accumulation>, n: int)
    requires
        is_even(fb),
        0 <= n <= calls.len(),
        forall|k: int| 0 <= k < calls.len() ==> is_valid_for(#[trigger] calls[k], fb),
    ensures
        fb.apply_all(calls, n).width == fb.width,
        fb.apply_all(calls, n).height == fb.height,
        fb.apply_all(calls, n).sums.len() == fb.sums.len(),
        fb.apply_all(calls, n).counts.len() == fb.counts.len(),
    decreases n,
{
    if n > 0 {
        lemma_apply_all_keeps_shape(fb, calls, n - 1);
        assert(is_valid_for(calls[n - 1], fb));
    }
}

/// A run of accumulations looks only at the calls it makes.
pub proof fn lemma_apply_all_prefix(
    fb: FramebufferView,
    s1: Seq<Accumulation>,
    s2: Seq<Accumulation>,
    n: int,
)
    requires
        0 <= n <= s1.len(),
        n <= s2.len(),
        forall|k: int| 0 <= k < n ==> s1[k] == s2[k],
    ensures
        fb.apply_all(s1, n) == fb.apply_all(s2, n),
    decreases n,
{
    if n > 0 {
        lemma_apply_all_prefix(fb, s1, s2, n - 1);
    }
}

/// An accumulation made anywhere in a run has the effect of one made at
/// its end.
pub proof fn lemma_apply_inserted(
    fb: FramebufferView,
    calls: Seq<Accumulation>,
    j: int,
    call: Accumulation,
)
    requires
        is_even(fb),
        0 <= j <= calls.len(),
        is_valid_for(call, fb),
        forall|k: int| 0 <= k < calls.len() ==> is_valid_for(#[trigger] calls[k], fb),
    ensures
        fb.apply_all(calls.insert(j, call), calls.len() as int + 1) == fb.apply_all(
            calls,
            calls.len() as int,
        ).apply(call),
    decreases calls.len() - j,
{
    let n = calls.len() as int;
    let longer = calls.insert(j, call);
    if j == n {
        assert(longer[n] == call);
        lemma_apply_all_prefix(fb, longer, calls, n);
    } else {
        let last = calls[n - 1];
        let front = calls.drop_last();
        let front_longer = front.insert(j, call);
        assert(longer[n] == last);
        assert forall|k: int| 0 <= k < n implies longer[k] == front_longer[k] by {}
        lemma_apply_all_prefix(fb, longer, front_longer, n);
        assert forall|k: int| 0 <= k < front.len() implies is_valid_for(
            #[trigger] front[k],
            fb,
        ) by {
            assert(front[k] == calls[k]);
        }
        lemma_apply_inserted(fb, front, j, call);
        lemma_apply_all_prefix(fb, calls, front, n - 1);
        let mid = fb.apply_all(front, n - 1);
        lemma_apply_all_keeps_shape(fb, front, n - 1);
        assert(is_valid_for(last, fb));
        lemma_add_samples_commute(mid, call, last);
    }
}

/// The order of accumulations does not matter: two runs of the same calls,
/// in whatever order, leave the same sums and counts, and so the same
/// finished image. Threads that add their samples in an order that nobody
/// chose therefore end with the image of any sequential run.
pub proof fn lemma_accumulation_order_free(
    fb: FramebufferView,
    s1: Seq<Accumulation>,
    s2: Seq<Accumulation>,
)
    requires
        is_even(fb),
        s1.to_multiset() =~= s2.to_multiset(),
        forall|k: int| 0 <= k < s1.len() ==> is_valid_for(#[trigger] s1[k], fb),
    ensures
        fb.apply_all(s1, s1.len() as int) == fb.apply_all(s2, s2.len() as int),
        fb.apply_all(s1, s1.len() as int).averages() == fb.apply_all(
            s2,
            s2.len() as int,
        ).averages(),
    decreases s1.len(),
{
    s1.to_multiset_ensures();
    s2.to_multiset_ensures();
    if s1.len() == 0 {
        assert(s2.len() == 0);
    } else {
        let n = s1.len() as int;
        let last = s1[n - 1];
        let front = s1.drop_last();
        assert(s1.contains(last));
        assert(s2.to_multiset().count(last) > 0);
        assert(s2.contains(last));
        let j = choose|j: int| 0 <= j < s2.len() && s2[j] == last;
        let rest = s2.remove(j);
        assert(s2 =~= rest.insert(j, last));
        assert(s1 =~= front.push(last));
        assert(front.to_multiset() =~= rest.to_multiset()) by {
            vstd::seq_lib::to_multiset_build(front, last);
            vstd::seq_lib::to_multiset_remove(s2, j);
            assert(front.push(last).to_multiset().remove(last) =~= front.to_multiset());
        }
        assert forall|k: int| 0 <= k < front.len() implies is_valid_for(
            #[trigger] front[k],
            fb,
        ) by {
            assert(front[k] == s1[k]);
        }
        lemma_accumulation_order_free(fb, front, rest);
        front.to_multiset_ensures();
        rest.to_multiset_ensures();
        assert forall|k: int| 0 <= k < rest.len() implies is_valid_for(#[trigger] rest[k], fb) by {
            assert(rest.contains(rest[k]));
            assert(front.to_multiset().count(rest[k]) > 0);
            assert(front.contains(rest[k]));
            let m = choose|m: int| 0 <= m < front.len() && front[m] == rest[k];
            assert(is_valid_for(front[m], fb));
        }
        lemma_apply_inserted(fb, rest, j, last);
        lemma_apply_all_prefix(fb, s1, front, n - 1);
    }
}

} // verus!
