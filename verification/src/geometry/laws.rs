//! What holds of every shape and every hierarchy: a try never moves the
//! closest hit away, and the hierarchy finds what a linear scan finds.
use crate::geometry::bbox::{lemma_hit_monotone, min2, BBox};
use crate::geometry::bvh::{scan, scan_all, BVHNode, BVH};
use crate::geometry::cuboid::Cuboid;
use crate::geometry::quad::Quad;
use crate::geometry::shape::Shape;
use crate::geometry::sphere::Sphere;
use crate::geometry::triangle::Triangle;
use crate::hit_record::HitRecord;
use crate::math::ray::Ray;
use crate::scalar::{Real, INFINITY};
use std::sync::Arc;
use vstd::prelude::*;

verus! {

/// `after` is what a try may make of `before`: the same ray, floor and
/// depth, a hit that is no further away, and either nothing changed at all
/// or a strictly closer hit at or beyond the floor, with its surface data.
pub open spec fn refines<'a>(before: HitRecord<'a>, after: HitRecord<'a>) -> bool {
    &&& after.ray == before.ray
    &&& after.t_min == before.t_min
    &&& after.depth == before.depth
    &&& after.t <= before.t
    &&& after.t == before.t ==> after == before
    &&& after.t < before.t ==> before.t_min <= after.t && after.hit_data is Some
}

/// The record of a ray that has not been tried against anything.
pub open spec fn fresh<'a>(ray: Ray, t_min: Real) -> HitRecord<'a> {
    HitRecord { t: INFINITY, t_min, depth: 0, ray, hit_data: None }
}

impl Shape {
    /// The shape's box never hides the shape: whenever the shape gives a
    /// record of this ray a closer hit, the ray passes the slab test of
    /// the shape's box between the floor and the hit the record held.
    pub open spec fn box_is_conservative(&self, ray: Ray, t_min: Real) -> bool {
        forall|rec: HitRecord|
            rec.ray == ray && rec.t_min == t_min && (#[trigger] self.spec_closest_hit(rec)).t
                < rec.t ==> self.bbox().spec_hit(ray, t_min, rec.t) is Some
    }

    /// The distance at which this ray hits the shape when nothing is in
    /// front of it; `INFINITY` where it does not hit.
    pub open spec fn candidate(&self, ray: Ray, t_min: Real) -> Real {
        self.spec_closest_hit(fresh(ray, t_min)).t
    }

    /// What the shape makes of the hit distance does not depend on what
    /// was tried before: it is the smaller of the distance the record held
    /// and the shape's own.
    pub open spec fn takes_closest(&self, ray: Ray, t_min: Real) -> bool {
        forall|rec: HitRecord|
            rec.ray == ray && rec.t_min == t_min && rec.t <= INFINITY ==> (
            #[trigger] self.spec_closest_hit(rec)).t == min2(
                rec.t as int,
                self.candidate(ray, t_min) as int,
            )
    }
}

/// Every one of `shapes` has a conservative box for this ray.
pub open spec fn all_conservative(shapes: Seq<Arc<Shape>>, ray: Ray, t_min: Real) -> bool {
    forall|i: int| 0 <= i < shapes.len() ==> (#[trigger] shapes[i]).box_is_conservative(ray, t_min)
}

/// Every one of `shapes` takes the closest of its own hit and the record's.
pub open spec fn all_take_closest(shapes: Seq<Arc<Shape>>, ray: Ray, t_min: Real) -> bool {
    forall|i: int| 0 <= i < shapes.len() ==> (#[trigger] shapes[i]).takes_closest(ray, t_min)
}

/// The smallest distance at which this ray hits one of the first `n` of
/// `shapes`; `INFINITY` where it hits none.
pub open spec fn closest_candidate(shapes: Seq<Arc<Shape>>, n: int, ray: Ray, t_min: Real) -> int
    decreases n,
{
    if n <= 0 || n > shapes.len() {
        INFINITY as int
    } else {
        min2(closest_candidate(shapes, n - 1, ray, t_min), shapes[n - 1].candidate(ray, t_min) as int)
    }
}

/// A try of a shape refines the record: the closest hit never moves away,
/// and a record that is not improved is not touched.
pub proof fn lemma_shape_refines<'a>(shape: &'a Shape, rec: HitRecord<'a>)
    ensures
        refines(rec, shape.spec_closest_hit(rec)),
    decreases shape, 0int, 0int,
{
    reveal(BBox::spec_hit);
    reveal(Sphere::spec_closest_hit);
    reveal(Cuboid::spec_closest_hit);
    reveal(Triangle::spec_closest_hit);
    reveal(Quad::spec_closest_hit);
    match shape {
        Shape::Sphere(s) => {
            assert(refines(rec, s.spec_closest_hit(rec)));
        },
        Shape::Cuboid(s) => {
            assert(refines(rec, s.spec_closest_hit(rec)));
        },
        Shape::Triangle(s) => {
            assert(refines(rec, s.spec_closest_hit(rec)));
        },
        Shape::Quad(s) => {
            assert(refines(rec, s.spec_closest_hit(rec)));
        },
        Shape::Mesh(s) => {
            lemma_node_refines(&s.bvh.root, rec);
            assert(refines(rec, s.spec_closest_hit(rec)));
        },
        Shape::Instance(s) => {
            lemma_shape_refines(&*s.shape, HitRecord { ray: s.local_ray(rec.ray), ..rec });
            assert(refines(rec, s.spec_closest_hit(rec)));
        },
    }
}

/// A try of a node of the hierarchy refines the record.
pub proof fn lemma_node_refines<'a>(node: &'a BVHNode, rec: HitRecord<'a>)
    ensures
        refines(rec, node.spec_closest_hit(rec)),
    decreases node, 2int, 0int,
{
    if node.bbox.spec_hit(rec.ray, rec.t_min, rec.t) is None {
    } else if node.shapes@.len() > 0 {
        lemma_scan_refines(node.shapes@, node.shapes@.len() as int, rec);
    } else {
        let after_left = match node.left {
            Some(l) => {
                lemma_node_refines(&*l, rec);
                l.spec_closest_hit(rec)
            },
            None => rec,
        };
        match node.right {
            Some(r) => {
                lemma_node_refines(&*r, after_left);
            },
            None => {},
        }
    }
}

/// A linear scan refines the record.
pub proof fn lemma_scan_refines<'a>(shapes: Seq<Arc<Shape>>, n: int, rec: HitRecord<'a>)
    ensures
        refines(rec, scan(shapes, n, rec)),
    decreases shapes, 1int, n,
{
    if n <= 0 || n > shapes.len() {
    } else {
        lemma_scan_refines(shapes, n - 1, rec);
        lemma_shape_refines(&*shapes[n - 1], scan(shapes, n - 1, rec));
    }
}

/// A sphere, a box, a triangle and a parallelogram keep the closer of two
/// hits, whatever the ray.
pub proof fn lemma_primitive_takes_closest(shape: &Shape, ray: Ray, t_min: Real)
    requires
        !(shape is Mesh),
        !(shape is Instance),
    ensures
        shape.takes_closest(ray, t_min),
{
    reveal(BBox::spec_hit);
    reveal(Sphere::spec_closest_hit);
    reveal(Cuboid::spec_closest_hit);
    reveal(Triangle::spec_closest_hit);
    reveal(Quad::spec_closest_hit);
    assert forall|rec: HitRecord| rec.ray == ray && rec.t_min == t_min && rec.t <= INFINITY implies (
    #[trigger] shape.spec_closest_hit(rec)).t == min2(
        rec.t as int,
        shape.candidate(ray, t_min) as int,
    ) by {
        let first = fresh(ray, t_min);
        match shape {
            Shape::Sphere(s) => {
                assert(shape.spec_closest_hit(rec) == s.spec_closest_hit(rec));
                assert(shape.spec_closest_hit(first) == s.spec_closest_hit(first));
            },
            Shape::Cuboid(s) => {
                assert(shape.spec_closest_hit(rec) == s.spec_closest_hit(rec));
                assert(shape.spec_closest_hit(first) == s.spec_closest_hit(first));
            },
            Shape::Triangle(s) => {
                assert(shape.spec_closest_hit(rec) == s.spec_closest_hit(rec));
                assert(shape.spec_closest_hit(first) == s.spec_closest_hit(first));
            },
            Shape::Quad(s) => {
                assert(shape.spec_closest_hit(rec) == s.spec_closest_hit(rec));
                assert(shape.spec_closest_hit(first) == s.spec_closest_hit(first));
            },
            _ => {},
        }
    }
}

/// An instance keeps the closer of two hits where the shape it wraps does
/// so for the ray carried into that shape's space.
pub proof fn lemma_instance_takes_closest(shape: &Shape, ray: Ray, t_min: Real)
    requires
        shape matches Shape::Instance(i) && i.shape.takes_closest(i.local_ray(ray), t_min),
    ensures
        shape.takes_closest(ray, t_min),
{
    let inst = shape->Instance_0;
    let local = inst.local_ray(ray);
    assert forall|rec: HitRecord| rec.ray == ray && rec.t_min == t_min && rec.t <= INFINITY implies (
    #[trigger] shape.spec_closest_hit(rec)).t == min2(
        rec.t as int,
        shape.candidate(ray, t_min) as int,
    ) by {
        let first = fresh(ray, t_min);
        let rec_local = HitRecord { ray: local, ..rec };
        let first_local = HitRecord { ray: local, ..first };
        lemma_shape_refines(&*inst.shape, rec_local);
        lemma_shape_refines(&*inst.shape, first_local);
        assert(inst.shape.spec_closest_hit(rec_local).t == min2(
            rec.t as int,
            inst.shape.candidate(local, t_min) as int,
        ));
        assert(first_local == fresh(local, t_min));
        assert(shape.spec_closest_hit(rec) == inst.spec_closest_hit(rec));
        assert(shape.spec_closest_hit(first) == inst.spec_closest_hit(first));
    }
}

/// A box as a shape never hides behind its own box: its hit is the slab
/// test on that box.
pub proof fn lemma_cuboid_box_is_conservative(shape: &Shape, ray: Ray, t_min: Real)
    requires
        shape is Cuboid,
    ensures
        shape.box_is_conservative(ray, t_min),
{
    reveal(Cuboid::spec_closest_hit);
    let c = shape->Cuboid_0;
    assert forall|rec: HitRecord|
        rec.ray == ray && rec.t_min == t_min && (#[trigger] shape.spec_closest_hit(rec)).t
            < rec.t implies shape.bbox().spec_hit(ray, t_min, rec.t) is Some by {
        assert(shape.spec_closest_hit(rec) == c.spec_closest_hit(rec));
    }
}

/// A scan looks only at the shapes it tries.
pub proof fn lemma_scan_prefix<'a>(
    s1: Seq<Arc<Shape>>,
    s2: Seq<Arc<Shape>>,
    n: int,
    rec: HitRecord<'a>,
)
    requires
        0 <= n <= s1.len(),
        n <= s2.len(),
        forall|i: int| 0 <= i < n ==> s1[i] == s2[i],
    ensures
        scan(s1, n, rec) == scan(s2, n, rec),
    decreases n,
{
    if n > 0 {
        lemma_scan_prefix(s1, s2, n - 1, rec);
    }
}

/// To scan two lists one after the other is to scan the first and then,
/// with what it found, the second.
pub proof fn lemma_scan_concat<'a>(
    a: Seq<Arc<Shape>>,
    b: Seq<Arc<Shape>>,
    n: int,
    rec: HitRecord<'a>,
)
    requires
        0 <= n <= b.len(),
    ensures
        scan(a + b, a.len() + n, rec) == scan(b, n, scan_all(a, rec)),
    decreases n,
{
    if n == 0 {
        lemma_scan_prefix(a + b, a, a.len() as int, rec);
    } else {
        lemma_scan_concat(a, b, n - 1, rec);
        assert((a + b)[a.len() + n - 1] == b[n - 1]);
    }
}

/// A scan over shapes of which none improves the record leaves it as it is.
pub proof fn lemma_scan_without_hit<'a>(shapes: Seq<Arc<Shape>>, n: int, rec: HitRecord<'a>)
    requires
        0 <= n <= shapes.len(),
        forall|i: int| 0 <= i < n ==> (#[trigger] shapes[i]).spec_closest_hit(rec).t >= rec.t,
    ensures
        scan(shapes, n, rec) == rec,
    decreases n,
{
    if n > 0 {
        lemma_scan_without_hit(shapes, n - 1, rec);
        lemma_shape_refines(&*shapes[n - 1], rec);
    }
}

/// The box of a node holds the box of every shape below it.
pub proof fn lemma_node_box_holds_shapes(node: &BVHNode, i: int)
    requires
        node.wf(),
        0 <= i < node.shapes_in_order().len(),
    ensures
        node.bbox.contains_box(node.shapes_in_order()[i].bbox()),
        node.shapes_in_order()[i].wf(),
    decreases node,
{
    if node.shapes@.len() > 0 {
    } else {
        let left = match node.left {
            Some(l) => l.shapes_in_order(),
            None => Seq::empty(),
        };
        if i < left.len() {
            lemma_node_box_holds_shapes(&*node.left.unwrap(), i);
        } else {
            lemma_node_box_holds_shapes(&*node.right.unwrap(), i - left.len());
        }
    }
}

/// The hierarchy is the linear scan: where no shape hides behind its own
/// box, trying a node gives exactly the record that trying the shapes below
/// it one by one, from left to right, gives.
pub proof fn lemma_node_is_scan<'a>(node: &'a BVHNode, rec: HitRecord<'a>)
    requires
        node.wf(),
        all_conservative(node.shapes_in_order(), rec.ray, rec.t_min),
    ensures
        node.spec_closest_hit(rec) == scan_all(node.shapes_in_order(), rec),
    decreases node,
{
    let shapes = node.shapes_in_order();
    if node.bbox.spec_hit(rec.ray, rec.t_min, rec.t) is None {
        assert forall|i: int| 0 <= i < shapes.len() implies (#[trigger] shapes[i]).spec_closest_hit(
            rec,
        ).t >= rec.t by {
            lemma_node_box_holds_shapes(node, i);
            if shapes[i].spec_closest_hit(rec).t < rec.t {
                assert(shapes[i].box_is_conservative(rec.ray, rec.t_min));
                lemma_hit_monotone(shapes[i].bbox(), node.bbox, rec.ray, rec.t_min, rec.t);
            }
        }
        lemma_scan_without_hit(shapes, shapes.len() as int, rec);
    } else if node.shapes@.len() > 0 {
    } else {
        let left = match node.left {
            Some(l) => l.shapes_in_order(),
            None => Seq::empty(),
        };
        let right = match node.right {
            Some(r) => r.shapes_in_order(),
            None => Seq::empty(),
        };
        assert(shapes =~= left + right);
        assert forall|i: int| 0 <= i < left.len() implies (#[trigger] left[i]).box_is_conservative(
            rec.ray,
            rec.t_min,
        ) by {
            assert(left[i] == shapes[i]);
        }
        assert forall|i: int| 0 <= i < right.len() implies (
        #[trigger] right[i]).box_is_conservative(rec.ray, rec.t_min) by {
            assert(right[i] == shapes[left.len() + i]);
        }
        let after_left = match node.left {
            Some(l) => {
                lemma_node_is_scan(&*l, rec);
                lemma_node_refines(&*l, rec);
                l.spec_closest_hit(rec)
            },
            None => rec,
        };
        assert(after_left == scan_all(left, rec));
        match node.right {
            Some(r) => {
                lemma_node_is_scan(&*r, after_left);
            },
            None => {},
        }
        lemma_scan_concat(left, right, right.len() as int, rec);
    }
}

/// What a scan makes of the hit distance: the smaller of the distance the
/// record held and the closest of the shapes' own.
pub proof fn lemma_scan_takes_closest<'a>(shapes: Seq<Arc<Shape>>, n: int, rec: HitRecord<'a>)
    requires
        0 <= n <= shapes.len(),
        rec.t <= INFINITY,
        all_take_closest(shapes, rec.ray, rec.t_min),
    ensures
        scan(shapes, n, rec).t == min2(
            rec.t as int,
            closest_candidate(shapes, n, rec.ray, rec.t_min),
        ),
    decreases n,
{
    if n > 0 {
        lemma_scan_takes_closest(shapes, n - 1, rec);
        lemma_scan_refines(shapes, n - 1, rec);
        let prev = scan(shapes, n - 1, rec);
        assert(shapes[n - 1].takes_closest(rec.ray, rec.t_min));
        assert(prev.ray == rec.ray && prev.t_min == rec.t_min && prev.t <= INFINITY);
        assert(shapes[n - 1].spec_closest_hit(prev).t == min2(
            prev.t as int,
            shapes[n - 1].candidate(rec.ray, rec.t_min) as int,
        ));
        assert(scan(shapes, n, rec) == shapes[n - 1].spec_closest_hit(prev));
    }
}

/// The closest candidate of a list is no further than that of any of its
/// shapes.
pub proof fn lemma_closest_candidate_below(
    shapes: Seq<Arc<Shape>>,
    n: int,
    i: int,
    ray: Ray,
    t_min: Real,
)
    requires
        0 <= i < n <= shapes.len(),
    ensures
        closest_candidate(shapes, n, ray, t_min) <= shapes[i].candidate(ray, t_min),
    decreases n,
{
    if i < n - 1 {
        lemma_closest_candidate_below(shapes, n - 1, i, ray, t_min);
    }
}

/// The closest candidate of a list is that of one of its shapes, or
/// `INFINITY`.
pub proof fn lemma_closest_candidate_attained(
    shapes: Seq<Arc<Shape>>,
    n: int,
    ray: Ray,
    t_min: Real,
) -> (i: int)
    requires
        0 <= n <= shapes.len(),
    ensures
        closest_candidate(shapes, n, ray, t_min) == INFINITY || (0 <= i < n && closest_candidate(
            shapes,
            n,
            ray,
            t_min,
        ) == shapes[i].candidate(ray, t_min)),
        closest_candidate(shapes, n, ray, t_min) <= INFINITY,
    decreases n,
{
    if n == 0 {
        0
    } else {
        let j = lemma_closest_candidate_attained(shapes, n - 1, ray, t_min);
        if closest_candidate(shapes, n, ray, t_min) == shapes[n - 1].candidate(ray, t_min) {
            n - 1
        } else {
            j
        }
    }
}

/// The closest candidate of a list is no further than that of a list of
/// which it holds every shape.
pub proof fn lemma_closest_candidate_of_members(
    s1: Seq<Arc<Shape>>,
    s2: Seq<Arc<Shape>>,
    ray: Ray,
    t_min: Real,
)
    requires
        forall|i: int| 0 <= i < s2.len() ==> s1.contains(#[trigger] s2[i]),
    ensures
        closest_candidate(s1, s1.len() as int, ray, t_min) <= closest_candidate(
            s2,
            s2.len() as int,
            ray,
            t_min,
        ),
{
    let i = lemma_closest_candidate_attained(s2, s2.len() as int, ray, t_min);
    let j = lemma_closest_candidate_attained(s1, s1.len() as int, ray, t_min);
    if closest_candidate(s2, s2.len() as int, ray, t_min) != INFINITY {
        assert(s1.contains(s2[i]));
        let k = choose|k: int| 0 <= k < s1.len() && s1[k] == s2[i];
        lemma_closest_candidate_below(s1, s1.len() as int, k, ray, t_min);
    }
}

/// Two lists that hold the same shapes hold each other's members.
pub proof fn lemma_same_members(s1: Seq<Arc<Shape>>, s2: Seq<Arc<Shape>>)
    requires
        s1.to_multiset() =~= s2.to_multiset(),
    ensures
        forall|i: int| 0 <= i < s2.len() ==> s1.contains(#[trigger] s2[i]),
        forall|i: int| 0 <= i < s1.len() ==> s2.contains(#[trigger] s1[i]),
{
    s1.to_multiset_ensures();
    s2.to_multiset_ensures();
    assert forall|i: int| 0 <= i < s2.len() implies s1.contains(#[trigger] s2[i]) by {
        assert(s2.contains(s2[i]));
        assert(s2.to_multiset().count(s2[i]) > 0);
    }
    assert forall|i: int| 0 <= i < s1.len() implies s2.contains(#[trigger] s1[i]) by {
        assert(s1.contains(s1[i]));
        assert(s1.to_multiset().count(s1[i]) > 0);
    }
}

/// The order of a linear scan does not matter to the distance it finds:
/// two scans over the same shapes, in whatever order, end at the same
/// distance.
pub proof fn lemma_scan_order_free<'a>(
    s1: Seq<Arc<Shape>>,
    s2: Seq<Arc<Shape>>,
    rec: HitRecord<'a>,
)
    requires
        s1.to_multiset() =~= s2.to_multiset(),
        rec.t <= INFINITY,
        all_take_closest(s1, rec.ray, rec.t_min),
    ensures
        scan_all(s1, rec).t == scan_all(s2, rec).t,
{
    lemma_same_members(s1, s2);
    assert forall|i: int| 0 <= i < s2.len() implies (#[trigger] s2[i]).takes_closest(
        rec.ray,
        rec.t_min,
    ) by {
        assert(s1.contains(s2[i]));
        let k = choose|k: int| 0 <= k < s1.len() && s1[k] == s2[i];
        assert(s1[k].takes_closest(rec.ray, rec.t_min));
    }
    lemma_scan_takes_closest(s1, s1.len() as int, rec);
    lemma_scan_takes_closest(s2, s2.len() as int, rec);
    lemma_closest_candidate_of_members(s1, s2, rec.ray, rec.t_min);
    lemma_closest_candidate_of_members(s2, s1, rec.ray, rec.t_min);
}

/// A mesh never hides behind its own box: that box is the box of the root
/// of its hierarchy, which is tried before anything else.
pub proof fn lemma_mesh_box_is_conservative(shape: &Shape, ray: Ray, t_min: Real)
    requires
        shape.wf(),
        shape is Mesh,
    ensures
        shape.box_is_conservative(ray, t_min),
{
    let mesh = shape->Mesh_0;
    assert(mesh.wf());
    assert forall|rec: HitRecord|
        rec.ray == ray && rec.t_min == t_min && (#[trigger] shape.spec_closest_hit(rec)).t
            < rec.t implies shape.bbox().spec_hit(ray, t_min, rec.t) is Some by {
        assert(shape.spec_closest_hit(rec) == mesh.spec_closest_hit(rec));
        lemma_node_refines(&mesh.bvh.root, rec);
    }
}

/// A mesh keeps the closer of two hits where its triangles do and none of
/// them hides behind its own box.
pub proof fn lemma_mesh_takes_closest(shape: &Shape, ray: Ray, t_min: Real)
    requires
        shape.wf(),
        shape is Mesh,
        all_conservative(shape->Mesh_0.bvh.root.shapes_in_order(), ray, t_min),
        all_take_closest(shape->Mesh_0.bvh.root.shapes_in_order(), ray, t_min),
    ensures
        shape.takes_closest(ray, t_min),
{
    let mesh = shape->Mesh_0;
    assert(mesh.wf());
    assert(mesh.bvh.wf());
    assert(mesh.bvh.root.wf());
    let order = mesh.bvh.root.shapes_in_order();
    let first = fresh(ray, t_min);
    lemma_node_is_scan(&mesh.bvh.root, first);
    lemma_scan_takes_closest(order, order.len() as int, first);
    lemma_node_refines(&mesh.bvh.root, first);
    let closest = closest_candidate(order, order.len() as int, ray, t_min);
    lemma_closest_candidate_attained(order, order.len() as int, ray, t_min);
    assert(shape.spec_closest_hit(first) == mesh.spec_closest_hit(first));
    assert(shape.candidate(ray, t_min) == closest);
    assert forall|rec: HitRecord| rec.ray == ray && rec.t_min == t_min && rec.t <= INFINITY implies (
    #[trigger] shape.spec_closest_hit(rec)).t == min2(
        rec.t as int,
        shape.candidate(ray, t_min) as int,
    ) by {
        lemma_node_is_scan(&mesh.bvh.root, rec);
        lemma_scan_takes_closest(order, order.len() as int, rec);
        lemma_node_refines(&mesh.bvh.root, rec);
        assert(shape.spec_closest_hit(rec) == mesh.spec_closest_hit(rec));
    }
}

/// The hierarchy and the naive linear scan agree: for a hierarchy built
/// over `shapes` and any ray, the closest hit that the hierarchy finds lies
/// at the distance that trying every one of `shapes` in their given order
/// finds, and the record as a whole is the one that the scan over the
/// hierarchy's own left-to-right order gives. This holds where no shape
/// hides behind its own box and every shape keeps the closer of two hits.
/// Every shape but a mesh and an instance keeps the closer of two hits. A
/// box and a mesh never hide behind their boxes; a sphere, a triangle, a
/// parallelogram and an instance that is moved and nothing else do so only
/// where the ray crosses their box in less than the smallest step or leaves
/// it exactly at the floor.
pub proof fn lemma_bvh_matches_linear_scan<'a>(
    bvh: &'a BVH,
    shapes: Seq<Arc<Shape>>,
    rec: HitRecord<'a>,
)
    requires
        bvh.wf(),
        bvh.root.shapes_in_order().to_multiset() =~= shapes.to_multiset(),
        rec.t <= INFINITY,
        all_conservative(shapes, rec.ray, rec.t_min),
        all_take_closest(shapes, rec.ray, rec.t_min),
    ensures
        bvh.spec_closest_hit(rec) == scan_all(bvh.root.shapes_in_order(), rec),
        bvh.spec_closest_hit(rec).t == scan_all(shapes, rec).t,
{
    let order = bvh.root.shapes_in_order();
    lemma_same_members(shapes, order);
    assert forall|i: int| 0 <= i < order.len() implies (#[trigger] order[i]).box_is_conservative(
        rec.ray,
        rec.t_min,
    ) by {
        assert(shapes.contains(order[i]));
        let k = choose|k: int| 0 <= k < shapes.len() && shapes[k] == order[i];
        assert(shapes[k].box_is_conservative(rec.ray, rec.t_min));
    }
    lemma_node_is_scan(&bvh.root, rec);
    lemma_scan_order_free(shapes, order, rec);
}

} // verus!
