//! The hierarchy finds the same hit as the linear scan: not only at the same
//! distance, but with the same surface data.
use crate::geometry::bbox::BBox;
use crate::geometry::bvh::{scan, scan_all, BVH};
use crate::geometry::cuboid::Cuboid;
use crate::geometry::laws::{
    all_conservative, fresh, lemma_node_is_scan, lemma_same_members, lemma_scan_refines,
    lemma_shape_refines,
};
use crate::geometry::quad::Quad;
use crate::geometry::shape::Shape;
use crate::geometry::sphere::Sphere;
use crate::geometry::triangle::Triangle;
use crate::hit_record::HitRecord;
use crate::math::ray::Ray;
use crate::scalar::{Real, INFINITY};
use std::sync::Arc;
use vstd::prelude::*;

verus! {

/// The record `rec` after a hit has been offered to it that was `found`
/// with nothing in front: the hit is taken, distance and surface data,
/// where it is strictly closer than what the record held, and else the
/// record stays as it is.
pub open spec fn offer<'a>(found: HitRecord<'a>, rec: HitRecord<'a>) -> HitRecord<'a> {
    if found.t < rec.t {
        HitRecord { t: found.t, hit_data: found.hit_data, ..rec }
    } else {
        rec
    }
}

impl Shape {
    /// What the shape finds does not depend on what was found before: it
    /// offers every record of this ray the hit that it finds with nothing
    /// in front.
    pub open spec fn finds_alike(&self, ray: Ray, t_min: Real) -> bool {
        forall|rec: HitRecord|
            rec.ray == ray && rec.t_min == t_min && rec.t <= INFINITY ==> #[trigger] self.spec_closest_hit(
                rec,
            ) == offer(self.spec_closest_hit(fresh(ray, t_min)), rec)
    }
}

/// Every one of `shapes` finds alike.
pub open spec fn all_find_alike(shapes: Seq<Arc<Shape>>, ray: Ray, t_min: Real) -> bool {
    forall|i: int| 0 <= i < shapes.len() ==> (#[trigger] shapes[i]).finds_alike(ray, t_min)
}

/// No two of `shapes` compete for the closest hit: where two of them are
/// hit at the same distance, they are hit with the same surface data.
pub open spec fn no_ties(shapes: Seq<Arc<Shape>>, ray: Ray, t_min: Real) -> bool {
    forall|i: int, j: int|
        0 <= i < shapes.len() && 0 <= j < shapes.len() && (#[trigger] shapes[i]).spec_closest_hit(
            fresh(ray, t_min),
        ).t == (#[trigger] shapes[j]).spec_closest_hit(fresh(ray, t_min)).t && shapes[i].spec_closest_hit(
            fresh(ray, t_min),
        ).t < INFINITY ==> shapes[i].spec_closest_hit(fresh(ray, t_min)).hit_data
            == shapes[j].spec_closest_hit(fresh(ray, t_min)).hit_data
}

/// A sphere, a box, a triangle and a parallelogram find alike, whatever the
/// ray.
pub proof fn lemma_primitive_finds_alike(shape: &Shape, ray: Ray, t_min: Real)
    requires
        !(shape is Mesh),
        !(shape is Instance),
    ensures
        shape.finds_alike(ray, t_min),
{
    reveal(BBox::spec_hit);
    reveal(Sphere::spec_closest_hit);
    reveal(Cuboid::spec_closest_hit);
    reveal(Triangle::spec_closest_hit);
    reveal(Quad::spec_closest_hit);
    let first = fresh(ray, t_min);
    assert forall|rec: HitRecord|
        rec.ray == ray && rec.t_min == t_min && rec.t <= INFINITY implies #[trigger] shape.spec_closest_hit(
        rec,
    ) == offer(shape.spec_closest_hit(first), rec) by {
        match shape {
            Shape::Sphere(s) => {
                assert(shape.spec_closest_hit(rec) == s.spec_closest_hit(rec));
                assert(shape.spec_closest_hit(first) == s.spec_closest_hit(first));
            },
            Shape::Cuboid(s) => {
                assert(shape.spec_closest_hit(rec) == s.spec_closest_hit(rec));
                assert(shape.spec_closest_hit(first) == s.spec_closest_hit(first));
            },
            Shape::Triangle(s) => {
                assert(shape.spec_closest_hit(rec) == s.spec_closest_hit(rec));
                assert(shape.spec_closest_hit(first) == s.spec_closest_hit(first));
            },
            Shape::Quad(s) => {
                assert(shape.spec_closest_hit(rec) == s.spec_closest_hit(rec));
                assert(shape.spec_closest_hit(first) == s.spec_closest_hit(first));
            },
            _ => {},
        }
    }
}

/// An instance finds alike where the shape it wraps does so for the ray
/// carried into that shape's space.
pub proof fn lemma_instance_finds_alike(shape: &Shape, ray: Ray, t_min: Real)
    requires
        shape matches Shape::Instance(i) && i.shape.finds_alike(i.local_ray(ray), t_min),
    ensures
        shape.finds_alike(ray, t_min),
{
    let inst = shape->Instance_0;
    let local = inst.local_ray(ray);
    let first = fresh(ray, t_min);
    let first_local = HitRecord { ray: local, ..first };
    assert(first_local == fresh(local, t_min));
    lemma_shape_refines(&*inst.shape, first_local);
    assert(shape.spec_closest_hit(first) == inst.spec_closest_hit(first));
    assert forall|rec: HitRecord|
        rec.ray == ray && rec.t_min == t_min && rec.t <= INFINITY implies #[trigger] shape.spec_closest_hit(
        rec,
    ) == offer(shape.spec_closest_hit(first), rec) by {
        let rec_local = HitRecord { ray: local, ..rec };
        lemma_shape_refines(&*inst.shape, rec_local);
        assert(inst.shape.spec_closest_hit(rec_local) == offer(
            inst.shape.spec_closest_hit(first_local),
            rec_local,
        ));
        assert(shape.spec_closest_hit(rec) == inst.spec_closest_hit(rec));
    }
}

/// A mesh finds alike where its triangles do and none of them hides behind
/// its own box.
pub proof fn lemma_mesh_finds_alike(shape: &Shape, ray: Ray, t_min: Real)
    requires
        shape.wf(),
        shape is Mesh,
        all_conservative(shape->Mesh_0.bvh.root.shapes_in_order(), ray, t_min),
        all_find_alike(shape->Mesh_0.bvh.root.shapes_in_order(), ray, t_min),
    ensures
        shape.finds_alike(ray, t_min),
{
    let mesh = shape->Mesh_0;
    assert(mesh.wf());
    assert(mesh.bvh.wf());
    assert(mesh.bvh.root.wf());
    let order = mesh.bvh.root.shapes_in_order();
    let first = fresh(ray, t_min);
    lemma_node_is_scan(&mesh.bvh.root, first);
    lemma_scan_refines(order, order.len() as int, first);
    assert(shape.spec_closest_hit(first) == mesh.spec_closest_hit(first));
    assert forall|rec: HitRecord|
        rec.ray == ray && rec.t_min == t_min && rec.t <= INFINITY implies #[trigger] shape.spec_closest_hit(
        rec,
    ) == offer(shape.spec_closest_hit(first), rec) by {
        lemma_node_is_scan(&mesh.bvh.root, rec);
        lemma_scan_finds_alike(order, order.len() as int, rec);
        lemma_scan_refines(order, order.len() as int, rec);
        assert(shape.spec_closest_hit(rec) == mesh.spec_closest_hit(rec));
    }
}

/// A scan finds alike where its shapes do: it offers the record the hit
/// that it finds with nothing in front.
pub proof fn lemma_scan_finds_alike<'a>(shapes: Seq<Arc<Shape>>, n: int, rec: HitRecord<'a>)
    requires
        0 <= n <= shapes.len(),
        rec.t <= INFINITY,
        all_find_alike(shapes, rec.ray, rec.t_min),
    ensures
        scan(shapes, n, rec) == offer(scan(shapes, n, fresh(rec.ray, rec.t_min)), rec),
    decreases n,
{
    let first = fresh(rec.ray, rec.t_min);
    if n > 0 {
        lemma_scan_finds_alike(shapes, n - 1, rec);
        lemma_scan_refines(shapes, n - 1, rec);
        lemma_scan_refines(shapes, n - 1, first);
        let shape = shapes[n - 1];
        assert(shape.finds_alike(rec.ray, rec.t_min));
        let before = scan(shapes, n - 1, rec);
        let before_first = scan(shapes, n - 1, first);
        let own = shape.spec_closest_hit(first);
        assert(shape.spec_closest_hit(before) == offer(own, before));
        assert(shape.spec_closest_hit(before_first) == offer(own, before_first));
        assert(scan(shapes, n, rec) == shape.spec_closest_hit(before));
        assert(scan(shapes, n, first) == shape.spec_closest_hit(before_first));
    }
}

/// What a scan finds with nothing in front is what one of its shapes finds
/// with nothing in front, unless it finds nothing.
pub proof fn lemma_scan_winner(shapes: Seq<Arc<Shape>>, n: int, ray: Ray, t_min: Real) -> (i: int)
    requires
        0 <= n <= shapes.len(),
        all_find_alike(shapes, ray, t_min),
    ensures
        scan(shapes, n, fresh(ray, t_min)).t == INFINITY ==> scan(shapes, n, fresh(ray, t_min))
            == fresh(ray, t_min),
        scan(shapes, n, fresh(ray, t_min)).t < INFINITY ==> 0 <= i < n && scan(
            shapes,
            n,
            fresh(ray, t_min),
        ).t == shapes[i].spec_closest_hit(fresh(ray, t_min)).t && scan(
            shapes,
            n,
            fresh(ray, t_min),
        ).hit_data == shapes[i].spec_closest_hit(fresh(ray, t_min)).hit_data,
        scan(shapes, n, fresh(ray, t_min)).t <= INFINITY,
    decreases n,
{
    let first = fresh(ray, t_min);
    if n == 0 {
        0
    } else {
        let j = lemma_scan_winner(shapes, n - 1, ray, t_min);
        lemma_scan_refines(shapes, n - 1, first);
        let shape = shapes[n - 1];
        assert(shape.finds_alike(ray, t_min));
        let before = scan(shapes, n - 1, first);
        let own = shape.spec_closest_hit(first);
        assert(shape.spec_closest_hit(before) == offer(own, before));
        assert(scan(shapes, n, first) == shape.spec_closest_hit(before));
        lemma_shape_refines(&*shape, first);
        if own.t < before.t {
            n - 1
        } else {
            j
        }
    }
}

/// What a scan finds with nothing in front is no further than what any of
/// its shapes finds.
pub proof fn lemma_scan_is_closest(shapes: Seq<Arc<Shape>>, n: int, i: int, ray: Ray, t_min: Real)
    requires
        0 <= i < n <= shapes.len(),
        all_find_alike(shapes, ray, t_min),
    ensures
        scan(shapes, n, fresh(ray, t_min)).t <= shapes[i].spec_closest_hit(fresh(ray, t_min)).t,
    decreases n,
{
    let first = fresh(ray, t_min);
    lemma_scan_refines(shapes, n - 1, first);
    let shape = shapes[n - 1];
    assert(shape.finds_alike(ray, t_min));
    let before = scan(shapes, n - 1, first);
    assert(shape.spec_closest_hit(before) == offer(shape.spec_closest_hit(first), before));
    assert(scan(shapes, n, first) == shape.spec_closest_hit(before));
    if i < n - 1 {
        lemma_scan_is_closest(shapes, n - 1, i, ray, t_min);
    }
}

/// The order of a linear scan does not matter to what it finds: two scans
/// over the same shapes, in whatever order, end with the same record,
/// unless two shapes compete for the closest hit.
pub proof fn lemma_scan_finds_the_same<'a>(
    s1: Seq<Arc<Shape>>,
    s2: Seq<Arc<Shape>>,
    rec: HitRecord<'a>,
)
    requires
        s1.to_multiset() =~= s2.to_multiset(),
        rec.t <= INFINITY,
        all_find_alike(s1, rec.ray, rec.t_min),
        no_ties(s1, rec.ray, rec.t_min),
    ensures
        scan_all(s1, rec) == scan_all(s2, rec),
{
    let ray = rec.ray;
    let t_min = rec.t_min;
    let first = fresh(ray, t_min);
    lemma_same_members(s1, s2);
    assert forall|i: int| 0 <= i < s2.len() implies (#[trigger] s2[i]).finds_alike(ray, t_min) by {
        assert(s1.contains(s2[i]));
        let k = choose|k: int| 0 <= k < s1.len() && s1[k] == s2[i];
        assert(s1[k].finds_alike(ray, t_min));
    }
    let n1 = s1.len() as int;
    let n2 = s2.len() as int;
    lemma_scan_finds_alike(s1, n1, rec);
    lemma_scan_finds_alike(s2, n2, rec);
    let w1 = lemma_scan_winner(s1, n1, ray, t_min);
    let w2 = lemma_scan_winner(s2, n2, ray, t_min);
    let f1 = scan(s1, n1, first);
    let f2 = scan(s2, n2, first);
    if f1.t < INFINITY {
        // the winner of the first list is a member of the second, and the other way round
        assert(s2.contains(s1[w1]));
        let k2 = choose|k: int| 0 <= k < s2.len() && s2[k] == s1[w1];
        lemma_scan_is_closest(s2, n2, k2, ray, t_min);
        assert(f2.t <= f1.t);
        assert(s1.contains(s2[w2]));
        let k1 = choose|k: int| 0 <= k < s1.len() && s1[k] == s2[w2];
        lemma_scan_is_closest(s1, n1, k1, ray, t_min);
        assert(f1.t == f2.t);
        assert(s1[k1].spec_closest_hit(first).t == s1[w1].spec_closest_hit(first).t);
        assert(f1.hit_data == f2.hit_data);
    } else {
        if f2.t < INFINITY {
            assert(s1.contains(s2[w2]));
            let k1 = choose|k: int| 0 <= k < s1.len() && s1[k] == s2[w2];
            lemma_scan_is_closest(s1, n1, k1, ray, t_min);
        }
        assert(f1 == first && f2 == first);
    }
}

/// The hierarchy finds what the naive linear scan finds: for a hierarchy
/// built over `shapes` and any ray, trying the hierarchy leaves the very
/// record that trying every one of `shapes` in their given order leaves,
/// the same distance and the same surface data of the same closest shape.
/// This holds where no shape hides behind its own box, every shape finds
/// alike, and no two shapes compete for the closest hit.
pub proof fn lemma_bvh_finds_the_same<'a>(
    bvh: &'a BVH,
    shapes: Seq<Arc<Shape>>,
    rec: HitRecord<'a>,
)
    requires
        bvh.wf(),
        bvh.root.shapes_in_order().to_multiset() =~= shapes.to_multiset(),
        rec.t <= INFINITY,
        all_conservative(shapes, rec.ray, rec.t_min),
        all_find_alike(shapes, rec.ray, rec.t_min),
        no_ties(shapes, rec.ray, rec.t_min),
    ensures
        bvh.spec_closest_hit(rec) == scan_all(shapes, rec),
        (bvh.spec_closest_hit(rec).t < rec.t) == (scan_all(shapes, rec).t < rec.t),
{
    let order = bvh.root.shapes_in_order();
    lemma_same_members(shapes, order);
    assert forall|i: int| 0 <= i < order.len() implies (#[trigger] order[i]).box_is_conservative(
        rec.ray,
        rec.t_min,
    ) by {
        assert(shapes.contains(order[i]));
        let k = choose|k: int| 0 <= k < shapes.len() && shapes[k] == order[i];
        assert(shapes[k].box_is_conservative(rec.ray, rec.t_min));
    }
    lemma_node_is_scan(&bvh.root, rec);
    lemma_scan_finds_the_same(shapes, order, rec);
}

} // verus!
