//! Rays: a point of origin and a direction.
use crate::math::vector::{P3, V3};
use crate::scalar::Real;
use vstd::prelude::*;

verus! {

/// The points `origin + direction * t` for `t >= 0`.
#[derive(Clone, Copy, Debug, PartialEq, Eq, Structural)]
pub struct Ray {
    pub origin: P3,
    pub direction: V3,
}

impl Default for Ray {
    /// The ray at the origin that has no direction.
    fn default() -> (r: Ray)
        ensures
            r == (Ray { origin: V3 { x: 0, y: 0, z: 0 }, direction: V3 { x: 0, y: 0, z: 0 } }),
    {
        Ray { origin: V3 { x: 0, y: 0, z: 0 }, direction: V3 { x: 0, y: 0, z: 0 } }
    }
}

impl Ray {
    /// Origin and direction lie within the saturation bounds.
    pub open spec fn wf(self) -> bool {
        self.origin.wf() && self.direction.wf()
    }

    /// The point at distance `t` along the ray.
    pub open spec fn spec_point_at(self, t: Real) -> P3 {
        self.origin.spec_plus(self.direction.spec_scale(t))
    }

    /// The point at distance `t` along the ray.
    pub fn point_at(&self, t: Real) -> (p: P3)
        ensures
            p == self.spec_point_at(t),
            p.wf(),
    {
        self.origin.plus(&self.direction.scale(t))
    }

    /// The ray that starts at `a` and reaches `b` at distance one.
    pub fn atob(a: P3, b: P3) -> (r: Ray)
        ensures
            r.origin == a,
            r.direction == b.spec_minus(a),
            r.direction.wf(),
    {
        Ray { origin: a, direction: b.minus(&a) }
    }
}

} // verus!
