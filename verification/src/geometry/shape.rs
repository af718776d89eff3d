//! The surfaces a ray can hit.
use crate::geometry::bbox::BBox;
use crate::geometry::cuboid::Cuboid;
use crate::geometry::instance::Instance;
use crate::geometry::mesh::Mesh;
use crate::geometry::quad::Quad;
use crate::geometry::sphere::Sphere;
use crate::geometry::triangle::Triangle;
use crate::hit_record::HitRecord;
use crate::math::vector::{P3, V3};
use crate::scalar::{floor_div_wide, Real};
use vstd::prelude::*;

verus! {

#[derive(Debug)]
pub enum Shape {
    Sphere(Sphere),
    Cuboid(Cuboid),
    Triangle(Triangle),
    Quad(Quad),
    Mesh(Mesh),
    Instance(Instance),
}

/// The mean of three points, rounded down.
pub open spec fn spec_mean3(a: P3, b: P3, c: P3) -> P3 {
    V3 {
        x: ((a.x + b.x + c.x) / 3) as Real,
        y: ((a.y + b.y + c.y) / 3) as Real,
        z: ((a.z + b.z + c.z) / 3) as Real,
    }
}

/// A third of the sum of three reals, rounded down.
fn third_of_sum(a: Real, b: Real, c: Real) -> (r: Real)
    requires
        crate::scalar::in_range(a as int),
        crate::scalar::in_range(b as int),
        crate::scalar::in_range(c as int),
    ensures
        r == (a + b + c) / 3,
        crate::scalar::in_range(r as int),
{
    floor_div_wide(a as i128 + b as i128 + c as i128, 3) as i64
}

impl Shape {
    pub open spec fn wf(&self) -> bool
        decreases self, 0int, 0int,
    {
        match self {
            Shape::Sphere(s) => s.wf(),
            Shape::Cuboid(s) => s.wf(),
            Shape::Triangle(s) => s.wf(),
            Shape::Quad(s) => s.wf(),
            Shape::Mesh(s) => s.wf(),
            Shape::Instance(s) => s.wf(),
        }
    }

    /// The box that bounds the shape.
    pub open spec fn bbox(&self) -> BBox {
        match self {
            Shape::Sphere(s) => s.bbox,
            Shape::Cuboid(s) => s.bbox,
            Shape::Triangle(s) => s.bbox,
            Shape::Quad(s) => s.bbox,
            Shape::Mesh(s) => s.bbox,
            Shape::Instance(s) => s.bbox,
        }
    }

    /// The point by which the shape is sorted into the hierarchy.
    pub open spec fn centroid(&self) -> P3 {
        match self {
            Shape::Sphere(s) => s.center,
            Shape::Triangle(s) => spec_mean3(s.a, s.b, s.c),
            _ => self.bbox().centroid,
        }
    }

    /// The record after this shape has been tried against the record's ray:
    /// it holds the hit on this shape if that lies at or beyond `t_min` and
    /// strictly before the closest hit so far, and is unchanged otherwise.
    pub open spec fn spec_closest_hit<'a>(&'a self, rec: HitRecord<'a>) -> HitRecord<'a>
        decreases self, 0int, 0int,
    {
        match self {
            Shape::Sphere(s) => s.spec_closest_hit(rec),
            Shape::Cuboid(s) => s.spec_closest_hit(rec),
            Shape::Triangle(s) => s.spec_closest_hit(rec),
            Shape::Quad(s) => s.spec_closest_hit(rec),
            Shape::Mesh(s) => s.spec_closest_hit(rec),
            Shape::Instance(s) => s.spec_closest_hit(rec),
        }
    }

    pub fn get_bbox(&self) -> (b: &BBox)
        ensures
            *b == self.bbox(),
    {
        match self {
            Shape::Sphere(s) => &s.bbox,
            Shape::Cuboid(s) => &s.bbox,
            Shape::Triangle(s) => &s.bbox,
            Shape::Quad(s) => &s.bbox,
            Shape::Mesh(s) => &s.bbox,
            Shape::Instance(s) => &s.bbox,
        }
    }

    pub fn get_centroid(&self) -> (c: P3)
        requires
            self.wf(),
        ensures
            c == self.centroid(),
            c.wf(),
    {
        proof {
            lemma_shape_bbox_wf(self);
        }
        match self {
            Shape::Sphere(s) => s.center,
            Shape::Cuboid(s) => s.bbox.centroid,
            Shape::Triangle(s) => V3 {
                x: third_of_sum(s.a.x, s.b.x, s.c.x),
                y: third_of_sum(s.a.y, s.b.y, s.c.y),
                z: third_of_sum(s.a.z, s.b.z, s.c.z),
            },
            Shape::Quad(s) => s.bbox.centroid,
            Shape::Mesh(s) => s.bbox.centroid,
            Shape::Instance(s) => s.bbox.centroid,
        }
    }

    /// Tries the shape against the record's ray and keeps the hit if it is
    /// closer than what the record holds.
    pub fn closest_hit<'a>(&'a self, hit: &mut HitRecord<'a>) -> (b: bool)
        requires
            self.wf(),
            old(hit).wf(),
        ensures
            *final(hit) == self.spec_closest_hit(*old(hit)),
            b == (final(hit).t < old(hit).t),
            b ==> old(hit).improves(final(hit).t) && final(hit).hit_data is Some,
            !b ==> *final(hit) == *old(hit),
            final(hit).wf(),
            final(hit).ray == old(hit).ray,
            final(hit).t_min == old(hit).t_min,
            final(hit).depth == old(hit).depth,
        decreases self, 0int, 0int,
    {
        match self {
            Shape::Sphere(s) => s.closest_hit(hit),
            Shape::Cuboid(s) => s.closest_hit(hit),
            Shape::Triangle(s) => s.closest_hit(hit),
            Shape::Quad(s) => s.closest_hit(hit),
            Shape::Mesh(s) => s.closest_hit(hit),
            Shape::Instance(s) => s.closest_hit(hit),
        }
    }
}

/// The box of a well-formed shape is well formed.
pub proof fn lemma_shape_bbox_wf(s: &Shape)
    requires
        s.wf(),
    ensures
        s.bbox().wf(),
{
}

} // verus!
