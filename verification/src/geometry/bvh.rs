//! The bounding-volume hierarchy: a binary tree of boxes over shapes.
use crate::geometry::bbox::BBox;
use crate::geometry::shape::{lemma_shape_bbox_wf, Shape};
use crate::geometry::sort::{all_wf, sort_shapes, sorted_along};
use crate::hit_record::{HitData, HitRecord};
use crate::math::vector::V3;
use std::sync::Arc;
use vstd::arithmetic::power2::pow2;
use vstd::prelude::*;
use vstd::seq_lib::lemma_multiset_commutative;

verus! {

/// The axis along which a node splits its shapes.
#[derive(Clone, Copy, Debug, PartialEq, Eq, Structural)]
pub enum Axis {
    X,
    Y,
    Z,
}

impl Axis {
    /// The axis of the next level: X, Y, Z and X again.
    pub open spec fn spec_next(self) -> Axis {
        match self {
            Axis::X => Axis::Y,
            Axis::Y => Axis::Z,
            Axis::Z => Axis::X,
        }
    }

    pub fn next(&self) -> (a: Axis)
        ensures
            a == self.spec_next(),
    {
        match self {
            Axis::X => Axis::Y,
            Axis::Y => Axis::Z,
            Axis::Z => Axis::X,
        }
    }
}

/// A node of the hierarchy: a leaf that holds shapes, or an inner node with
/// two children and no shapes of its own.
#[derive(Debug)]
pub struct BVHNode {
    pub bbox: BBox,
    pub left: Option<Box<BVHNode>>,
    pub right: Option<Box<BVHNode>>,
    pub shapes: Vec<Arc<Shape>>,
}

#[derive(Debug)]
pub struct BVH {
    pub root: BVHNode,
}

/// The record after the first `n` of `shapes` have been tried in turn.
pub open spec fn scan<'a>(shapes: Seq<Arc<Shape>>, n: int, rec: HitRecord<'a>) -> HitRecord<'a>
    decreases shapes, 1int, n,
{
    if n <= 0 || n > shapes.len() {
        rec
    } else {
        shapes[n - 1].spec_closest_hit(scan(shapes, n - 1, rec))
    }
}

/// The record after all of `shapes` have been tried in turn: the linear
/// scan.
pub open spec fn scan_all<'a>(shapes: Seq<Arc<Shape>>, rec: HitRecord<'a>) -> HitRecord<'a> {
    scan(shapes, shapes.len() as int, rec)
}

/// The smallest box that holds the boxes of the first `n` of `shapes`; for no
/// shape at all, the box that is the origin alone.
pub open spec fn union_box(shapes: Seq<Arc<Shape>>, n: int) -> BBox
    decreases n,
{
    if n <= 0 {
        BBox::spec_new(V3 { x: 0, y: 0, z: 0 }, V3 { x: 0, y: 0, z: 0 })
    } else if n == 1 {
        shapes[0].bbox()
    } else {
        BBox::spec_combine(union_box(shapes, n - 1), shapes[n - 1].bbox())
    }
}

/// The number of shapes from which a node is split: a leaf holds fewer.
pub const MAX_SHAPES: usize = 4;

impl BVHNode {
    /// The node is the hierarchy over `shapes` that splits along `axis`
    /// first: a leaf that holds them all where they are fewer than
    /// `MAX_SHAPES`; else an inner node over the shapes sorted by centroid
    /// along `axis`, with the lower half on the left and the rest on the
    /// right, both split along the next axis, in a box that holds the boxes
    /// of both.
    pub open spec fn is_built_from(&self, shapes: Seq<Arc<Shape>>, axis: Axis) -> bool
        decreases self,
    {
        if shapes.len() < MAX_SHAPES {
            &&& self.shapes@ == shapes
            &&& self.left is None
            &&& self.right is None
            &&& self.bbox == union_box(shapes, shapes.len() as int)
        } else {
            &&& self.shapes@.len() == 0
            &&& self.left is Some
            &&& self.right is Some
            &&& self.bbox == BBox::spec_combine(self.left.unwrap().bbox, self.right.unwrap().bbox)
            &&& exists|sorted: Seq<Arc<Shape>>|
                {
                    &&& #[trigger] sorted_along(sorted, axis)
                    &&& sorted.to_multiset() =~= shapes.to_multiset()
                    &&& sorted.len() == shapes.len()
                    &&& self.left.unwrap().is_built_from(
                        sorted.subrange(0, shapes.len() as int / 2),
                        axis.spec_next(),
                    )
                    &&& self.right.unwrap().is_built_from(
                        sorted.subrange(shapes.len() as int / 2, shapes.len() as int),
                        axis.spec_next(),
                    )
                }
        }
    }

    /// The boxes are well formed, the node's box holds the boxes of all that
    /// is below it, and a node with shapes has no children.
    pub open spec fn wf(&self) -> bool
        decreases self, 2int, 0int,
    {
        &&& self.bbox.wf()
        &&& self.shapes@.len() > 0 ==> self.left is None && self.right is None
        &&& forall|i: int|
            0 <= i < self.shapes@.len() ==> (#[trigger] self.shapes@[i]).wf() && self.bbox.contains_box(
                self.shapes@[i].bbox(),
            )
        &&& self.left matches Some(l) ==> l.wf() && self.bbox.contains_box(l.bbox)
        &&& self.right matches Some(r) ==> r.wf() && self.bbox.contains_box(r.bbox)
    }

    /// The number of levels below the node.
    pub open spec fn height(&self) -> nat
        decreases self,
    {
        let left = match self.left {
            Some(l) => l.height() + 1,
            None => 0,
        };
        let right = match self.right {
            Some(r) => r.height() + 1,
            None => 0,
        };
        if left >= right {
            left
        } else {
            right
        }
    }

    /// The shapes below the node, from left to right.
    pub open spec fn shapes_in_order(&self) -> Seq<Arc<Shape>>
        decreases self,
    {
        if self.shapes@.len() > 0 {
            self.shapes@
        } else {
            (match self.left {
                Some(l) => l.shapes_in_order(),
                None => Seq::empty(),
            }) + (match self.right {
                Some(r) => r.shapes_in_order(),
                None => Seq::empty(),
            })
        }
    }

    /// The record after the node has been tried: unchanged where the ray
    /// misses the node's box between `t_min` and the closest hit so far;
    /// else what the shapes of a leaf, tried in turn, or the two children,
    /// left before right, make of it.
    pub open spec fn spec_closest_hit<'a>(&'a self, rec: HitRecord<'a>) -> HitRecord<'a>
        decreases self, 2int, 0int,
    {
        if self.bbox.spec_hit(rec.ray, rec.t_min, rec.t) is None {
            rec
        } else if self.shapes@.len() > 0 {
            scan(self.shapes@, self.shapes@.len() as int, rec)
        } else {
            let after_left = match self.left {
                Some(l) => l.spec_closest_hit(rec),
                None => rec,
            };
            match self.right {
                Some(r) => r.spec_closest_hit(after_left),
                None => after_left,
            }
        }
    }

    /// The box around all of `shapes`.
    fn bound(shapes: &Vec<Arc<Shape>>) -> (b: BBox)
        requires
            all_wf(shapes@),
        ensures
            b == union_box(shapes@, shapes@.len() as int),
            b.wf(),
            forall|i: int| 0 <= i < shapes@.len() ==> b.contains_box((#[trigger] shapes@[i]).bbox()),
    {
        if shapes.len() == 0 {
            return BBox::new(V3::zero(), V3::zero());
        }
        proof {
            lemma_shape_bbox_wf(&*shapes@[0]);
        }
        let mut b: BBox = *shapes[0].get_bbox();
        let mut i: usize = 1;
        while i < shapes.len()
            invariant
                1 <= i <= shapes.len(),
                all_wf(shapes@),
                b == union_box(shapes@, i as int),
                b.wf(),
                forall|k: int| 0 <= k < i ==> b.contains_box((#[trigger] shapes@[k]).bbox()),
            decreases shapes.len() - i,
        {
            proof {
                lemma_shape_bbox_wf(&*shapes@[i as int]);
            }
            b = BBox::combine(&b, shapes[i].get_bbox());
            i += 1;
        }
        b
    }

    /// Builds the hierarchy over `shapes`, splitting along `axis` first.
    pub fn new(shapes: Vec<Arc<Shape>>, axis: Axis) -> (node: BVHNode)
        requires
            all_wf(shapes@),
        ensures
            node.is_built_from(shapes@, axis),
            node.wf(),
            node.shapes_in_order().to_multiset() =~= shapes@.to_multiset(),
        decreases shapes@.len(),
    {
        if shapes.len() < MAX_SHAPES {
            let bbox = BVHNode::bound(&shapes);
            let node = BVHNode { bbox, left: None, right: None, shapes };
            proof {
                assert(node.shapes_in_order() =~= node.shapes@);
            }
            return node;
        }
        let ghost all = shapes@;
        let mut sorted = sort_shapes(shapes, axis);
        let ghost whole = sorted@;
        let mid = sorted.len() / 2;
        let right_shapes = sorted.split_off(mid);
        proof {
            assert(whole =~= sorted@ + right_shapes@);
            lemma_multiset_commutative(sorted@, right_shapes@);
        }
        let left = BVHNode::new(sorted, axis.next());
        let right = BVHNode::new(right_shapes, axis.next());
        let bbox = BBox::combine(left.bbox(), right.bbox());
        proof {
            lemma_multiset_commutative(left.shapes_in_order(), right.shapes_in_order());
        }
        let node = BVHNode {
            bbox,
            left: Some(Box::new(left)),
            right: Some(Box::new(right)),
            shapes: Vec::new(),
        };
        proof {
            assert(sorted_along(whole, axis));
            assert(node.is_built_from(all, axis));
        }
        node
    }

    pub fn bbox(&self) -> (b: &BBox)
        ensures
            *b == self.bbox,
    {
        &self.bbox
    }

    /// Tries the shapes below the node against the record's ray, skipping
    /// the node if the ray misses its box.
    pub fn closest_hit<'a>(&'a self, hit: &mut HitRecord<'a>) -> (b: bool)
        requires
            self.wf(),
            old(hit).wf(),
        ensures
            *final(hit) == self.spec_closest_hit(*old(hit)),
            b == (final(hit).t < old(hit).t),
            b ==> old(hit).improves(final(hit).t) && final(hit).hit_data is Some,
            !b ==> *final(hit) == *old(hit),
            final(hit).wf(),
            final(hit).ray == old(hit).ray,
            final(hit).t_min == old(hit).t_min,
            final(hit).depth == old(hit).depth,
        decreases self, 2int, 0int,
    {
        if self.bbox.hit(&hit.ray, hit.t_min, hit.t).is_none() {
            return false;
        }
        let mut hit_anything = false;
        if self.shapes.len() > 0 {
            let mut i: usize = 0;
            while i < self.shapes.len()
                invariant
                    i <= self.shapes.len(),
                    self.wf(),
                    hit.wf(),
                    *hit == scan(self.shapes@, i as int, *old(hit)),
                    hit_anything == (hit.t < old(hit).t),
                    hit_anything ==> old(hit).improves(hit.t) && hit.hit_data is Some,
                    !hit_anything ==> *hit == *old(hit),
                    hit.ray == old(hit).ray,
                    hit.t_min == old(hit).t_min,
                    hit.depth == old(hit).depth,
                decreases self.shapes.len() - i,
            {
                if self.shapes[i].closest_hit(hit) {
                    hit_anything = true;
                }
                i += 1;
            }
            return hit_anything;
        }
        match &self.left {
            Some(left) => {
                if left.closest_hit(hit) {
                    hit_anything = true;
                }
            },
            None => {},
        }
        match &self.right {
            Some(right) => {
                if right.closest_hit(hit) {
                    hit_anything = true;
                }
            },
            None => {},
        }
        hit_anything
    }
}

impl BVH {
    pub open spec fn wf(&self) -> bool
        decreases self, 0int, 0int,
    {
        self.root.wf()
    }

    /// The record after the hierarchy has been tried.
    pub open spec fn spec_closest_hit<'a>(&'a self, rec: HitRecord<'a>) -> HitRecord<'a>
        decreases self, 0int, 0int,
    {
        self.root.spec_closest_hit(rec)
    }

    /// Builds the hierarchy over `shapes`; the root splits along X.
    pub fn new(shapes: Vec<Arc<Shape>>) -> (bvh: BVH)
        requires
            all_wf(shapes@),
        ensures
            bvh.root.is_built_from(shapes@, Axis::X),
            bvh.wf(),
            bvh.root.shapes_in_order().to_multiset() =~= shapes@.to_multiset(),
    {
        BVH { root: BVHNode::new(shapes, Axis::X) }
    }

    /// Tries every shape of the hierarchy that the ray can reach and keeps
    /// the closest hit.
    pub fn closest_hit<'a>(&'a self, hit: &mut HitRecord<'a>) -> (b: bool)
        requires
            self.wf(),
            old(hit).wf(),
        ensures
            *final(hit) == self.spec_closest_hit(*old(hit)),
            b == (final(hit).t < old(hit).t),
            b ==> old(hit).improves(final(hit).t) && final(hit).hit_data is Some,
            !b ==> *final(hit) == *old(hit),
            final(hit).wf(),
            final(hit).ray == old(hit).ray,
            final(hit).t_min == old(hit).t_min,
            final(hit).depth == old(hit).depth,
        decreases self, 0int, 0int,
    {
        self.root.closest_hit(hit)
    }

    /// Looks for the closest hit and hands out its surface data, which the
    /// record no longer holds afterwards.
    pub fn get_closest_hit_data<'a>(&'a self, hit: &mut HitRecord<'a>) -> (r: Option<HitData<'a>>)
        requires
            self.wf(),
            old(hit).wf(),
        ensures
            r == self.spec_closest_hit(*old(hit)).hit_data,
            *final(hit) == (HitRecord { hit_data: None, ..self.spec_closest_hit(*old(hit)) }),
            final(hit).wf(),
            final(hit).ray == old(hit).ray,
            final(hit).t_min == old(hit).t_min,
            final(hit).depth == old(hit).depth,
            r matches Some(d) ==> d.wf(),
    {
        self.closest_hit(hit);
        let data = hit.hit_data;
        hit.hit_data = None;
        data
    }

    pub fn get_bbox(&self) -> (b: &BBox)
        ensures
            *b == self.root.bbox,
    {
        &self.root.bbox
    }
}

/// The hierarchy is balanced: a leaf holds at most `MAX_SHAPES - 1` shapes,
/// and over at most so many times two to the `levels` shapes the hierarchy
/// has at most `levels` levels below its root.
pub proof fn lemma_built_is_shallow(
    node: &BVHNode,
    shapes: Seq<Arc<Shape>>,
    axis: Axis,
    levels: nat,
)
    requires
        node.is_built_from(shapes, axis),
        shapes.len() <= (MAX_SHAPES - 1) * pow2(levels),
    ensures
        node.height() <= levels,
    decreases node,
{
    if shapes.len() < MAX_SHAPES {
    } else {
        let n = shapes.len() as int;
        let sorted = choose|sorted: Seq<Arc<Shape>>|
            {
                &&& #[trigger] sorted_along(sorted, axis)
                &&& sorted.to_multiset() =~= shapes.to_multiset()
                &&& sorted.len() == shapes.len()
                &&& node.left.unwrap().is_built_from(sorted.subrange(0, n / 2), axis.spec_next())
                &&& node.right.unwrap().is_built_from(
                    sorted.subrange(n / 2, n),
                    axis.spec_next(),
                )
            };
        if levels == 0 {
            assert(pow2(0) == 1) by {
                vstd::arithmetic::power2::lemma2_to64();
            }
            assert((MAX_SHAPES - 1) * pow2(0) == 3) by (nonlinear_arith)
                requires
                    pow2(0) == 1,
                    MAX_SHAPES == 4,
            ;
        } else {
            vstd::arithmetic::power2::lemma_pow2_unfold(levels);
            let half = (MAX_SHAPES - 1) * pow2((levels - 1) as nat);
            assert((MAX_SHAPES - 1) * pow2(levels) == 2 * half) by (nonlinear_arith)
                requires
                    pow2(levels) == 2 * pow2((levels - 1) as nat),
                    half == (MAX_SHAPES - 1) * pow2((levels - 1) as nat),
            ;
            lemma_built_is_shallow(
                &*node.left.unwrap(),
                sorted.subrange(0, n / 2),
                axis.spec_next(),
                (levels - 1) as nat,
            );
            lemma_built_is_shallow(
                &*node.right.unwrap(),
                sorted.subrange(n / 2, n),
                axis.spec_next(),
                (levels - 1) as nat,
            );
        }
    }
}

} // verus!
