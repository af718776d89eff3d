//! Orthonormal frames built from a direction.
use crate::math::vector::{P3, V3};
use crate::scalar::{real_abs, spec_abs, Real, ONE};
use vstd::prelude::*;

verus! {

/// A camera frame: `w` points against the view, `u` to the right and `v` up.
#[derive(Debug)]
pub struct CoordinateSystem {
    pub u: V3,
    pub v: V3,
    pub w: V3,
    pub position: P3,
}

/// A view closer than this to the vertical, as a cosine, gets another
/// helper axis than the world's up.
pub const NEARLY_PARALLEL: Real = 1047527;

/// A normal whose `x` exceeds this gets the `y` axis as its first tangent.
pub const NEARLY_ALONG_X: Real = 1038090;

/// The helper axis from which the frame around `w` is built: the world's up,
/// or, where `w` is nearly vertical, `w` with its smallest component
/// replaced by one.
pub open spec fn spec_helper_axis(w: V3) -> V3 {
    let up = V3 { x: 0, y: ONE, z: 0 };
    if spec_abs(up.spec_dot(w) as Real) > NEARLY_PARALLEL {
        let x = spec_abs(w.x);
        let y = spec_abs(w.y);
        let z = spec_abs(w.z);
        if x <= y && x <= z {
            V3 { x: ONE, ..w }
        } else if y <= x {
            V3 { y: ONE, ..w }
        } else {
            V3 { z: ONE, ..w }
        }
    } else {
        up
    }
}

/// The tangent and the bitangent of a surface with the given normal.
pub open spec fn spec_tangent_frame(normal: V3) -> (V3, V3) {
    let first = if spec_abs(normal.x) > NEARLY_ALONG_X {
        V3 { x: 0, y: ONE, z: 0 }
    } else {
        V3 { x: ONE, y: 0, z: 0 }
    };
    let bitangent = normal.spec_cross(first).spec_normalize();
    (bitangent.spec_cross(normal).spec_normalize(), bitangent)
}

impl CoordinateSystem {
    pub open spec fn wf(self) -> bool {
        self.u.wf() && self.v.wf() && self.w.wf() && self.position.wf()
    }

    /// The frame at `position` that looks along `view_direction`.
    pub open spec fn spec_new(position: P3, view_direction: V3) -> CoordinateSystem {
        let w = view_direction.spec_normalize().spec_neg();
        let u = spec_helper_axis(w).spec_cross(w);
        let v = w.spec_cross(u);
        CoordinateSystem { u: u.spec_normalize(), v: v.spec_normalize(), w, position }
    }

    /// The frame at `position` that looks along `view_direction`.
    pub fn new(position: P3, view_direction: &V3) -> (c: CoordinateSystem)
        requires
            position.wf(),
            view_direction.wf(),
        ensures
            c == CoordinateSystem::spec_new(position, *view_direction),
            c.wf(),
    {
        let w = view_direction.normalize().neg();
        let mut temp_up = V3 { x: 0, y: ONE, z: 0 };
        let tdotw = temp_up.dot(&w);
        if real_abs(tdotw) > NEARLY_PARALLEL {
            temp_up = w;
            let x = real_abs(temp_up.x);
            let y = real_abs(temp_up.y);
            let z = real_abs(temp_up.z);
            if x <= y && x <= z {
                temp_up.x = ONE;
            } else if y <= x {
                temp_up.y = ONE;
            } else {
                temp_up.z = ONE;
            }
        }
        let u = temp_up.cross(&w);
        let v = w.cross(&u);
        CoordinateSystem { u: u.normalize(), v: v.normalize(), w, position }
    }
}

/// The tangent and the bitangent of a surface with the given normal.
pub fn create_coordinate_system(normal: &V3) -> (r: (V3, V3))
    requires
        normal.wf(),
    ensures
        r == spec_tangent_frame(*normal),
        r.0.wf(),
        r.1.wf(),
{
    let tangent = if real_abs(normal.x) > NEARLY_ALONG_X {
        V3 { x: 0, y: ONE, z: 0 }
    } else {
        V3 { x: ONE, y: 0, z: 0 }
    };
    let bitangent = normal.cross(&tangent).normalize();
    let tangent = bitangent.cross(normal).normalize();
    (tangent, bitangent)
}

} // verus!
