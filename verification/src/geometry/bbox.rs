//! Axis-aligned bounding boxes and the slab test.
use crate::math::ray::Ray;
use crate::math::transform::Transform;
use crate::math::vector::{P3, V3};
use crate::scalar::{
    floor_div_wide, floor_quot, in_range, lemma_floor_quot_antitone, lemma_floor_quot_monotone,
    real_max, real_min, saturate, saturate_wide, Real, INFINITY, ONE, ONE_WIDE,
};
use vstd::prelude::*;

verus! {

/// An axis-aligned box, with its centre and its size kept beside its corners.
#[derive(Clone, Copy, Debug, PartialEq, Eq, Structural)]
pub struct BBox {
    pub min: P3,
    pub max: P3,
    pub centroid: P3,
    pub extent: V3,
}

/// The smaller of two integers.
pub open spec fn min2(a: int, b: int) -> int {
    if a <= b {
        a
    } else {
        b
    }
}

/// The larger of two integers.
pub open spec fn max2(a: int, b: int) -> int {
    if a >= b {
        a
    } else {
        b
    }
}

/// `a <= b` in every component.
pub open spec fn le3(a: V3, b: V3) -> bool {
    a.x <= b.x && a.y <= b.y && a.z <= b.z
}

/// The componentwise minimum of two points.
pub open spec fn min3(a: V3, b: V3) -> V3 {
    V3 {
        x: if a.x <= b.x { a.x } else { b.x },
        y: if a.y <= b.y { a.y } else { b.y },
        z: if a.z <= b.z { a.z } else { b.z },
    }
}

/// The componentwise maximum of two points.
pub open spec fn max3(a: V3, b: V3) -> V3 {
    V3 {
        x: if a.x >= b.x { a.x } else { b.x },
        y: if a.y >= b.y { a.y } else { b.y },
        z: if a.z >= b.z { a.z } else { b.z },
    }
}

/// The point halfway between two points, rounded down.
pub open spec fn spec_center(a: V3, b: V3) -> V3 {
    V3 {
        x: ((a.x + b.x) / 2) as Real,
        y: ((a.y + b.y) / 2) as Real,
        z: ((a.z + b.z) / 2) as Real,
    }
}

/// The distance `(edge - o) / d` along a ray at which it crosses the plane
/// `edge` of one axis, for a direction component `d` that is not zero.
pub open spec fn plane_distance(edge: Real, o: Real, d: Real) -> int {
    saturate(floor_quot((edge - o) * ONE, d as int))
}

/// The distance at which a ray enters the slab `[lo, hi]` of one axis. A ray
/// parallel to the slab is inside it everywhere or nowhere.
pub open spec fn axis_enter(lo: Real, hi: Real, o: Real, d: Real) -> int {
    if d > 0 {
        plane_distance(lo, o, d)
    } else if d < 0 {
        plane_distance(hi, o, d)
    } else if lo <= o <= hi {
        -INFINITY
    } else {
        INFINITY as int
    }
}

/// The distance at which a ray leaves the slab `[lo, hi]` of one axis.
pub open spec fn axis_exit(lo: Real, hi: Real, o: Real, d: Real) -> int {
    if d > 0 {
        plane_distance(hi, o, d)
    } else if d < 0 {
        plane_distance(lo, o, d)
    } else if lo <= o <= hi {
        INFINITY as int
    } else {
        -INFINITY
    }
}

impl BBox {
    /// The corners are ordered and within bounds, and centre and size belong
    /// to them.
    pub open spec fn wf(self) -> bool {
        &&& self.min.wf()
        &&& self.max.wf()
        &&& le3(self.min, self.max)
        &&& self.centroid == spec_center(self.min, self.max)
        &&& self.extent == self.max.spec_minus(self.min)
    }

    /// The box that spans the corners `min` and `max`.
    pub open spec fn spec_new(min: P3, max: P3) -> BBox {
        BBox { min, max, centroid: spec_center(min, max), extent: max.spec_minus(min) }
    }

    /// The smallest box that holds both `b1` and `b2`.
    pub open spec fn spec_combine(b1: BBox, b2: BBox) -> BBox {
        BBox::spec_new(min3(b1.min, b2.min), max3(b1.max, b2.max))
    }

    /// Every point of `inner` lies in `self`.
    pub open spec fn contains_box(self, inner: BBox) -> bool {
        le3(self.min, inner.min) && le3(inner.max, self.max)
    }

    /// The point `p` lies in the box.
    pub open spec fn contains_point(self, p: P3) -> bool {
        le3(self.min, p) && le3(p, self.max)
    }

    /// One of the eight corners of the box: bit 0 of `i` picks the `x` of
    /// `max`, bit 1 the `y`, bit 2 the `z`.
    pub open spec fn corner(self, i: int) -> P3 {
        V3 {
            x: if i % 2 == 1 { self.max.x } else { self.min.x },
            y: if (i / 2) % 2 == 1 { self.max.y } else { self.min.y },
            z: if (i / 4) % 2 == 1 { self.max.z } else { self.min.z },
        }
    }

    /// The componentwise minimum of the images of the first `n` corners.
    pub open spec fn image_min(self, m: Transform, n: int) -> P3
        decreases n,
    {
        if n <= 1 {
            m.spec_transform_point(self.corner(0))
        } else {
            min3(self.image_min(m, n - 1), m.spec_transform_point(self.corner(n - 1)))
        }
    }

    /// The componentwise maximum of the images of the first `n` corners.
    pub open spec fn image_max(self, m: Transform, n: int) -> P3
        decreases n,
    {
        if n <= 1 {
            m.spec_transform_point(self.corner(0))
        } else {
            max3(self.image_max(m, n - 1), m.spec_transform_point(self.corner(n - 1)))
        }
    }

    /// The smallest box that holds the images of the eight corners.
    pub open spec fn spec_transform(self, m: Transform) -> BBox {
        BBox::spec_new(self.image_min(m, 8), self.image_max(m, 8))
    }

    /// The largest distance at which the ray enters one of the three slabs.
    pub open spec fn enter(self, ray: Ray) -> int {
        max2(
            axis_enter(self.min.x, self.max.x, ray.origin.x, ray.direction.x),
            max2(
                axis_enter(self.min.y, self.max.y, ray.origin.y, ray.direction.y),
                axis_enter(self.min.z, self.max.z, ray.origin.z, ray.direction.z),
            ),
        )
    }

    /// The smallest distance at which the ray leaves one of the three slabs.
    pub open spec fn exit(self, ray: Ray) -> int {
        min2(
            axis_exit(self.min.x, self.max.x, ray.origin.x, ray.direction.x),
            min2(
                axis_exit(self.min.y, self.max.y, ray.origin.y, ray.direction.y),
                axis_exit(self.min.z, self.max.z, ray.origin.z, ray.direction.z),
            ),
        )
    }

    /// The slab test: the ray is inside all three slabs somewhere between
    /// `tmin` and `tmax`, and the result is the distance at which that
    /// stretch begins.
    #[verifier::opaque]
    pub open spec fn spec_hit(self, ray: Ray, tmin: Real, tmax: Real) -> Option<Real> {
        let enter = self.enter(ray);
        let exit = self.exit(ray);
        if enter < exit && enter < tmax && tmin < exit {
            Some(max2(enter, tmin as int) as Real)
        } else {
            None
        }
    }

    /// The box that spans `min` and `max`.
    pub fn new(min: P3, max: P3) -> (b: BBox)
        requires
            min.wf(),
            max.wf(),
            le3(min, max),
        ensures
            b == BBox::spec_new(min, max),
            b.wf(),
    {
        BBox {
            min,
            max,
            centroid: V3 {
                x: half_sum(min.x, max.x),
                y: half_sum(min.y, max.y),
                z: half_sum(min.z, max.z),
            },
            extent: max.minus(&min),
        }
    }

    /// The smallest box that holds the two points, in whatever order they
    /// come.
    pub fn from_corners(a: P3, b: P3) -> (r: BBox)
        requires
            a.wf(),
            b.wf(),
        ensures
            r == BBox::spec_new(min3(a, b), max3(a, b)),
            r.wf(),
            r.contains_point(a),
            r.contains_point(b),
    {
        BBox::new(lower(&a, &b), upper(&a, &b))
    }

    /// The smallest box that holds both `b1` and `b2`.
    pub fn combine(b1: &BBox, b2: &BBox) -> (b: BBox)
        requires
            b1.wf(),
            b2.wf(),
        ensures
            b == BBox::spec_combine(*b1, *b2),
            b.wf(),
            b.contains_box(*b1),
            b.contains_box(*b2),
    {
        BBox::new(lower(&b1.min, &b2.min), upper(&b1.max, &b2.max))
    }

    /// One of the eight corners of the box.
    fn corner_at(&self, i: u8) -> (p: P3)
        requires
            self.wf(),
            i < 8,
        ensures
            p == self.corner(i as int),
            p.wf(),
    {
        V3 {
            x: if i % 2 == 1 { self.max.x } else { self.min.x },
            y: if (i / 2) % 2 == 1 { self.max.y } else { self.min.y },
            z: if (i / 4) % 2 == 1 { self.max.z } else { self.min.z },
        }
    }

    /// The smallest box that holds the images of the eight corners under
    /// `transform`.
    pub fn transform(&self, transform: &Transform) -> (b: BBox)
        requires
            self.wf(),
            transform.wf(),
        ensures
            b == self.spec_transform(*transform),
            b.wf(),
    {
        let first = transform.transform_point(&self.corner_at(0));
        let mut min = first;
        let mut max = first;
        let mut i: u8 = 1;
        while i < 8
            invariant
                1 <= i <= 8,
                self.wf(),
                transform.wf(),
                min == self.image_min(*transform, i as int),
                max == self.image_max(*transform, i as int),
                min.wf(),
                max.wf(),
                le3(min, max),
            decreases 8 - i,
        {
            let corner = transform.transform_point(&self.corner_at(i));
            min = lower(&min, &corner);
            max = upper(&max, &corner);
            i += 1;
        }
        BBox::new(min, max)
    }

    /// The slab test.
    pub fn hit(&self, ray: &Ray, tmin: Real, tmax: Real) -> (r: Option<Real>)
        requires
            self.wf(),
            ray.wf(),
            in_range(tmin as int),
        ensures
            r == self.spec_hit(*ray, tmin, tmax),
            r matches Some(t) ==> tmin <= t && in_range(t as int) && (tmin < tmax ==> t < tmax),
    {
        reveal(BBox::spec_hit);
        let mut tmin = tmin;
        let mut tmax = tmax;
        let (enter_x, exit_x) = slab(self.min.x, self.max.x, ray.origin.x, ray.direction.x);
        if enter_x >= exit_x || enter_x >= tmax || exit_x <= tmin {
            return None;
        }
        tmax = real_min(tmax, exit_x);
        tmin = real_max(tmin, enter_x);
        let (enter_y, exit_y) = slab(self.min.y, self.max.y, ray.origin.y, ray.direction.y);
        if enter_y >= exit_y || enter_y >= tmax || exit_y <= tmin {
            return None;
        }
        tmax = real_min(tmax, exit_y);
        tmin = real_max(tmin, enter_y);
        let (enter_z, exit_z) = slab(self.min.z, self.max.z, ray.origin.z, ray.direction.z);
        if enter_z >= exit_z || enter_z >= tmax || exit_z <= tmin {
            return None;
        }
        Some(real_max(enter_z, tmin))
    }
}

/// Half of the sum of two reals, rounded down.
fn half_sum(a: Real, b: Real) -> (r: Real)
    requires
        in_range(a as int),
        in_range(b as int),
    ensures
        r == (a + b) / 2,
        in_range(r as int),
        a <= b ==> a <= r <= b,
{
    floor_div_wide(a as i128 + b as i128, 2) as i64
}

/// The componentwise minimum of two points.
fn lower(a: &P3, b: &P3) -> (r: P3)
    ensures
        r == min3(*a, *b),
{
    V3 { x: real_min(a.x, b.x), y: real_min(a.y, b.y), z: real_min(a.z, b.z) }
}

/// The componentwise maximum of two points.
fn upper(a: &P3, b: &P3) -> (r: P3)
    ensures
        r == max3(*a, *b),
{
    V3 { x: real_max(a.x, b.x), y: real_max(a.y, b.y), z: real_max(a.z, b.z) }
}

/// The distance at which a ray crosses the plane `edge` of one axis.
fn plane(edge: Real, o: Real, d: Real) -> (t: Real)
    requires
        in_range(edge as int),
        in_range(o as int),
        d != 0,
    ensures
        t == plane_distance(edge, o, d),
        in_range(t as int),
{
    let n: i128 = (edge as i128 - o as i128) * ONE_WIDE;
    saturate_wide(floor_div_wide(n, d as i128))
}

/// The distances at which a ray enters and leaves the slab of one axis.
fn slab(lo: Real, hi: Real, o: Real, d: Real) -> (r: (Real, Real))
    requires
        in_range(lo as int),
        in_range(hi as int),
        in_range(o as int),
    ensures
        r.0 == axis_enter(lo, hi, o, d),
        r.1 == axis_exit(lo, hi, o, d),
        in_range(r.0 as int),
        in_range(r.1 as int),
{
    if d > 0 {
        (plane(lo, o, d), plane(hi, o, d))
    } else if d < 0 {
        (plane(hi, o, d), plane(lo, o, d))
    } else if lo <= o && o <= hi {
        (-INFINITY, INFINITY)
    } else {
        (INFINITY, -INFINITY)
    }
}

/// A ray enters the slab of a larger interval no later, and leaves it no
/// earlier.
pub proof fn lemma_slab_monotone(lo: Real, hi: Real, lo2: Real, hi2: Real, o: Real, d: Real)
    requires
        lo2 <= lo,
        hi <= hi2,
        lo <= hi,
    ensures
        axis_enter(lo2, hi2, o, d) <= axis_enter(lo, hi, o, d),
        axis_exit(lo, hi, o, d) <= axis_exit(lo2, hi2, o, d),
{
    if d > 0 {
        lemma_floor_quot_monotone((lo2 - o) * 0x10_0000, (lo - o) * 0x10_0000, d as int);
        lemma_floor_quot_monotone((hi - o) * 0x10_0000, (hi2 - o) * 0x10_0000, d as int);
    } else if d < 0 {
        lemma_floor_quot_antitone((hi - o) * 0x10_0000, (hi2 - o) * 0x10_0000, d as int);
        lemma_floor_quot_antitone((lo2 - o) * 0x10_0000, (lo - o) * 0x10_0000, d as int);
    }
}

/// A ray that passes the slab test of a box passes that of every box around
/// it, over the same stretch, and enters the outer box no later.
pub proof fn lemma_hit_monotone(inner: BBox, outer: BBox, ray: Ray, tmin: Real, tmax: Real)
    requires
        le3(inner.min, inner.max),
        outer.contains_box(inner),
        inner.spec_hit(ray, tmin, tmax) is Some,
    ensures
        outer.spec_hit(ray, tmin, tmax) is Some,
        outer.spec_hit(ray, tmin, tmax).unwrap() <= inner.spec_hit(ray, tmin, tmax).unwrap(),
{
    reveal(BBox::spec_hit);
    lemma_slab_monotone(
        inner.min.x,
        inner.max.x,
        outer.min.x,
        outer.max.x,
        ray.origin.x,
        ray.direction.x,
    );
    lemma_slab_monotone(
        inner.min.y,
        inner.max.y,
        outer.min.y,
        outer.max.y,
        ray.origin.y,
        ray.direction.y,
    );
    lemma_slab_monotone(
        inner.min.z,
        inner.max.z,
        outer.min.z,
        outer.max.z,
        ray.origin.z,
        ray.direction.z,
    );
}

} // verus!
