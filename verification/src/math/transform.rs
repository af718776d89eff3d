//! Affine maps of space: a linear part, held row by row, and a translation.
use crate::math::vector::{P3, V3};
use crate::scalar::{real_div, spec_div, Real, ONE};
use vstd::prelude::*;

verus! {

/// A rotation, held as the three rows of its matrix.
#[derive(Clone, Copy, Debug, PartialEq, Eq, Structural)]
pub struct Rotation3 {
    pub x: V3,
    pub y: V3,
    pub z: V3,
}

/// The map `p -> L p + t`, with the rows `x`, `y` and `z` of `L`.
#[derive(Clone, Copy, Debug, PartialEq, Eq, Structural)]
pub struct Transform {
    pub x: V3,
    pub y: V3,
    pub z: V3,
    pub t: V3,
}

impl Rotation3 {
    pub open spec fn wf(self) -> bool {
        self.x.wf() && self.y.wf() && self.z.wf()
    }

    /// The rotation that leaves every vector as it is.
    pub fn identity() -> (r: Rotation3)
        ensures
            r == (Rotation3 {
                x: V3 { x: ONE, y: 0, z: 0 },
                y: V3 { x: 0, y: ONE, z: 0 },
                z: V3 { x: 0, y: 0, z: ONE },
            }),
            r.wf(),
    {
        Rotation3 {
            x: V3 { x: ONE, y: 0, z: 0 },
            y: V3 { x: 0, y: ONE, z: 0 },
            z: V3 { x: 0, y: 0, z: ONE },
        }
    }
}

impl Transform {
    pub open spec fn wf(self) -> bool {
        self.x.wf() && self.y.wf() && self.z.wf() && self.t.wf()
    }

    /// The image of a direction: the linear part alone.
    pub open spec fn spec_transform_vector(self, v: V3) -> V3 {
        V3 {
            x: self.x.spec_dot(v) as Real,
            y: self.y.spec_dot(v) as Real,
            z: self.z.spec_dot(v) as Real,
        }
    }

    /// The image of a point.
    pub open spec fn spec_transform_point(self, p: P3) -> P3 {
        self.spec_transform_vector(p).spec_plus(self.t)
    }

    /// The map that scales by `scale`, then rotates, then translates.
    pub open spec fn spec_compose(translation: V3, rotation: Rotation3, scale: V3) -> Transform {
        Transform {
            x: rotation.x.spec_component_mul(scale),
            y: rotation.y.spec_component_mul(scale),
            z: rotation.z.spec_component_mul(scale),
            t: translation,
        }
    }

    /// The componentwise inverse of a scale.
    pub open spec fn spec_inverse_scale(scale: V3) -> V3 {
        V3 {
            x: spec_div(ONE, scale.x) as Real,
            y: spec_div(ONE, scale.y) as Real,
            z: spec_div(ONE, scale.z) as Real,
        }
    }

    /// The linear part of the inverse of `spec_compose`: the transposed
    /// rotation, each row divided by the scale of its axis.
    pub open spec fn spec_inverse_linear(rotation: Rotation3, scale: V3) -> Transform {
        let inv = Transform::spec_inverse_scale(scale);
        Transform {
            x: (V3 { x: rotation.x.x, y: rotation.y.x, z: rotation.z.x }).spec_scale(inv.x),
            y: (V3 { x: rotation.x.y, y: rotation.y.y, z: rotation.z.y }).spec_scale(inv.y),
            z: (V3 { x: rotation.x.z, y: rotation.y.z, z: rotation.z.z }).spec_scale(inv.z),
            t: V3 { x: 0, y: 0, z: 0 },
        }
    }

    /// The inverse of `spec_compose`: undo the translation, then the
    /// rotation, then the scale.
    pub open spec fn spec_compose_inverse(
        translation: V3,
        rotation: Rotation3,
        scale: V3,
    ) -> Transform {
        let linear = Transform::spec_inverse_linear(rotation, scale);
        Transform { t: linear.spec_transform_vector(translation).spec_neg(), ..linear }
    }

    /// The map that carries normals of the scaled and rotated shape back:
    /// the transpose of the inverse's linear part.
    pub open spec fn spec_normal_matrix(rotation: Rotation3, scale: V3) -> Transform {
        let inv = Transform::spec_inverse_scale(scale);
        Transform {
            x: rotation.x.spec_component_mul(inv),
            y: rotation.y.spec_component_mul(inv),
            z: rotation.z.spec_component_mul(inv),
            t: V3 { x: 0, y: 0, z: 0 },
        }
    }

    /// The image of a direction.
    pub fn transform_vector(&self, v: &V3) -> (r: V3)
        requires
            self.wf(),
            v.wf(),
        ensures
            r == self.spec_transform_vector(*v),
            r.wf(),
    {
        V3 { x: self.x.dot(v), y: self.y.dot(v), z: self.z.dot(v) }
    }

    /// The image of a point.
    pub fn transform_point(&self, p: &P3) -> (r: P3)
        requires
            self.wf(),
            p.wf(),
        ensures
            r == self.spec_transform_point(*p),
            r.wf(),
    {
        self.transform_vector(p).plus(&self.t)
    }

    /// The map that scales, then rotates, then translates.
    pub fn compose(translation: &V3, rotation: &Rotation3, scale: &V3) -> (r: Transform)
        requires
            translation.wf(),
        ensures
            r == Transform::spec_compose(*translation, *rotation, *scale),
            r.wf(),
    {
        Transform {
            x: rotation.x.component_mul(scale),
            y: rotation.y.component_mul(scale),
            z: rotation.z.component_mul(scale),
            t: *translation,
        }
    }

    /// The componentwise inverse of a scale.
    pub fn inverse_scale(scale: &V3) -> (r: V3)
        ensures
            r == Transform::spec_inverse_scale(*scale),
            r.wf(),
    {
        V3 { x: real_div(ONE, scale.x), y: real_div(ONE, scale.y), z: real_div(ONE, scale.z) }
    }

    /// The inverse of `compose`.
    pub fn compose_inverse(translation: &V3, rotation: &Rotation3, scale: &V3) -> (r: Transform)
        requires
            translation.wf(),
        ensures
            r == Transform::spec_compose_inverse(*translation, *rotation, *scale),
            r.wf(),
    {
        let inv = Transform::inverse_scale(scale);
        let linear = Transform {
            x: (V3 { x: rotation.x.x, y: rotation.y.x, z: rotation.z.x }).scale(inv.x),
            y: (V3 { x: rotation.x.y, y: rotation.y.y, z: rotation.z.y }).scale(inv.y),
            z: (V3 { x: rotation.x.z, y: rotation.y.z, z: rotation.z.z }).scale(inv.z),
            t: V3 { x: 0, y: 0, z: 0 },
        };
        let t = linear.transform_vector(translation).neg();
        Transform { x: linear.x, y: linear.y, z: linear.z, t }
    }

    /// The map that carries normals back.
    pub fn normal_matrix(rotation: &Rotation3, scale: &V3) -> (r: Transform)
        ensures
            r == Transform::spec_normal_matrix(*rotation, *scale),
            r.wf(),
    {
        let inv = Transform::inverse_scale(scale);
        Transform {
            x: rotation.x.component_mul(&inv),
            y: rotation.y.component_mul(&inv),
            z: rotation.z.component_mul(&inv),
            t: V3 { x: 0, y: 0, z: 0 },
        }
    }
}

} // verus!
