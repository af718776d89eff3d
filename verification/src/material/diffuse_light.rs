//! Surfaces that emit light.
use crate::math::vector::{Color, P3};
use crate::scalar::Real;
use crate::texture::Texture;
use std::sync::Arc;
use vstd::prelude::*;

verus! {

/// Emits light and scatters none.
#[derive(Debug)]
pub struct DiffuseLight {
    pub emission: Arc<Texture>,
}

impl DiffuseLight {
    pub fn new(emission: Arc<Texture>) -> (m: DiffuseLight)
        ensures
            m.emission == emission,
    {
        DiffuseLight { emission }
    }

    /// The light that the surface emits at the surface coordinates `uv`.
    pub fn emitted(&self, uv: (Real, Real), point: &P3) -> (c: Color)
        requires
            self.emission.wf(),
        ensures
            c == self.emission.spec_color(uv),
            c.wf(),
    {
        self.emission.color(uv, point)
    }
}

} // verus!
