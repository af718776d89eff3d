//! Triangle meshes.
use crate::geometry::bbox::BBox;
use crate::geometry::bvh::{Axis, BVH};
use crate::geometry::shape::Shape;
use crate::geometry::sort::all_wf;
use crate::geometry::triangle::Triangle;
use crate::hit_record::{HitData, HitRecord};
use crate::material::{share, Material};
use crate::math::vector::P3;
use std::sync::Arc;
use vstd::prelude::*;

verus! {

/// A hierarchy over the triangles of a mesh, all of one material.
#[derive(Debug)]
pub struct Mesh {
    pub bvh: BVH,
    pub bbox: BBox,
    pub material: Arc<Material>,
}

/// The vertex list and the index list describe triangles: three indices for
/// each, every one of them that of a vertex within bounds.
pub open spec fn is_indexed_mesh(positions: Seq<P3>, indices: Seq<u32>) -> bool {
    &&& indices.len() % 3 == 0
    &&& forall|i: int| 0 <= i < indices.len() ==> #[trigger] indices[i] < positions.len()
    &&& forall|i: int| 0 <= i < positions.len() ==> (#[trigger] positions[i]).wf()
}

/// The `k`-th triangle of an indexed mesh.
pub open spec fn spec_triangle(
    positions: Seq<P3>,
    indices: Seq<u32>,
    k: int,
    material: Arc<Material>,
) -> Triangle {
    Triangle::spec_new(
        positions[indices[3 * k] as int],
        positions[indices[3 * k + 1] as int],
        positions[indices[3 * k + 2] as int],
        material,
    )
}

/// `shapes` are the first `n` triangles of the indexed mesh, in the order of
/// the index list.
pub open spec fn is_triangle_list(
    shapes: Seq<Arc<Shape>>,
    n: int,
    positions: Seq<P3>,
    indices: Seq<u32>,
    material: Arc<Material>,
) -> bool {
    &&& shapes.len() == n
    &&& forall|k: int|
        0 <= k < n ==> *(#[trigger] shapes[k]) == Shape::Triangle(
            spec_triangle(positions, indices, k, material),
        )
}

impl Mesh {
    /// The mesh of the triangles that `indices` picks from `positions`, all
    /// of the material `material`, under a hierarchy of their own.
    pub fn new(positions: &Vec<P3>, indices: &Vec<u32>, material: Arc<Material>) -> (mesh: Mesh)
        requires
            is_indexed_mesh(positions@, indices@),
            material.wf(),
        ensures
            mesh.wf(),
            mesh.material == material,
            exists|shapes: Seq<Arc<Shape>>|
                #[trigger] is_triangle_list(
                    shapes,
                    indices@.len() as int / 3,
                    positions@,
                    indices@,
                    material,
                ) && mesh.bvh.root.is_built_from(shapes, Axis::X),
    {
        let count: usize = indices.len() / 3;
        let mut triangles: Vec<Arc<Shape>> = Vec::new();
        let mut k: usize = 0;
        while k < count
            invariant
                k <= count,
                count == indices@.len() / 3,
                is_indexed_mesh(positions@, indices@),
                material.wf(),
                all_wf(triangles@),
                is_triangle_list(triangles@, k as int, positions@, indices@, material),
            decreases count - k,
        {
            let n: usize = indices.len();
            assert(3 * k + 2 < n) by {
                vstd::arithmetic::div_mod::lemma_fundamental_div_mod(n as int, 3);
            }
            let a = positions[indices[3 * k] as usize];
            let b = positions[indices[3 * k + 1] as usize];
            let c = positions[indices[3 * k + 2] as usize];
            let triangle = Triangle::new(a, b, c, share(&material));
            triangles.push(Arc::new(Shape::Triangle(triangle)));
            k += 1;
        }
        let ghost shapes = triangles@;
        let bvh = BVH::new(triangles);
        let bbox = *bvh.get_bbox();
        Mesh { bvh, bbox, material }
    }

    pub open spec fn wf(&self) -> bool
        decreases self, 0int, 0int,
    {
        &&& self.bvh.wf()
        &&& self.bbox.wf()
        &&& self.bbox == self.bvh.root.bbox
        &&& self.material.wf()
    }

    /// The record after the mesh has been tried: what its hierarchy finds,
    /// with the mesh's material in place of the triangle's.
    pub open spec fn spec_closest_hit<'a>(&'a self, rec: HitRecord<'a>) -> HitRecord<'a>
        decreases self, 0int, 0int,
    {
        let inner = self.bvh.spec_closest_hit(rec);
        if inner.t < rec.t && inner.hit_data is Some {
            HitRecord {
                hit_data: Some(HitData { material: &*self.material, ..inner.hit_data.unwrap() }),
                ..inner
            }
        } else {
            rec
        }
    }

    /// Tries the mesh against the record's ray and keeps the hit if it is
    /// closer than what the record holds.
    pub fn closest_hit<'a>(&'a self, hit: &mut HitRecord<'a>) -> (b: bool)
        requires
            self.wf(),
            old(hit).wf(),
        ensures
            *final(hit) == self.spec_closest_hit(*old(hit)),
            b == (final(hit).t < old(hit).t),
            b ==> old(hit).improves(final(hit).t) && final(hit).hit_data is Some,
            !b ==> *final(hit) == *old(hit),
            final(hit).wf(),
            final(hit).ray == old(hit).ray,
            final(hit).t_min == old(hit).t_min,
            final(hit).depth == old(hit).depth,
        decreases self, 0int, 0int,
    {
        let did_hit = self.bvh.closest_hit(hit);
        if !did_hit {
            return false;
        }
        match hit.hit_data {
            Some(data) => {
                hit.hit_data = Some(
                    HitData {
                        uv: data.uv,
                        normal: data.normal,
                        front_face: data.front_face,
                        material: &*self.material,
                    },
                );
                true
            },
            None => false,
        }
    }
}

} // verus!
