//! Sorting shapes along an axis.
use crate::geometry::bvh::Axis;
use crate::geometry::shape::Shape;
use crate::scalar::Real;
use std::sync::Arc;
use vstd::prelude::*;
use vstd::seq_lib::{lemma_multiset_commutative, to_multiset_build};

verus! {

/// The coordinate of the shape's centroid along `axis`.
pub open spec fn axis_key(shape: &Shape, axis: Axis) -> Real {
    match axis {
        Axis::X => shape.centroid().x,
        Axis::Y => shape.centroid().y,
        Axis::Z => shape.centroid().z,
    }
}

/// The centroids do not decrease along `axis` from one shape to the next.
pub open spec fn sorted_along(shapes: Seq<Arc<Shape>>, axis: Axis) -> bool {
    forall|i: int, j: int|
        0 <= i <= j < shapes.len() ==> axis_key(&*shapes[i], axis) <= axis_key(&*shapes[j], axis)
}

/// The centroids do not increase along `axis` from one shape to the next.
pub open spec fn sorted_down(shapes: Seq<Arc<Shape>>, axis: Axis) -> bool {
    forall|i: int, j: int|
        0 <= i <= j < shapes.len() ==> axis_key(&*shapes[i], axis) >= axis_key(&*shapes[j], axis)
}

/// Every shape of the sequence is well formed.
pub open spec fn all_wf(shapes: Seq<Arc<Shape>>) -> bool {
    forall|i: int| 0 <= i < shapes.len() ==> (#[trigger] shapes[i]).wf()
}

/// No centroid of `low` lies beyond one of `high` along `axis`.
pub open spec fn all_below(low: Seq<Arc<Shape>>, high: Seq<Arc<Shape>>, axis: Axis) -> bool {
    forall|i: int, j: int|
        0 <= i < low.len() && 0 <= j < high.len() ==> axis_key(&*low[i], axis) <= axis_key(
            &*high[j],
            axis,
        )
}

/// A sequence holds what it holds without its last element, and that
/// element.
pub proof fn lemma_last_to_multiset<A>(s: Seq<A>)
    requires
        s.len() > 0,
    ensures
        s.to_multiset() =~= s.drop_last().to_multiset().insert(s.last()),
{
    assert(s =~= s.drop_last().push(s.last()));
    to_multiset_build(s.drop_last(), s.last());
}

/// The coordinate of the shape's centroid along `axis`.
pub fn key_of(shape: &Shape, axis: Axis) -> (k: Real)
    requires
        shape.wf(),
    ensures
        k == axis_key(shape, axis),
{
    let c = shape.get_centroid();
    match axis {
        Axis::X => c.x,
        Axis::Y => c.y,
        Axis::Z => c.z,
    }
}

/// Merges two sorted runs into one, descending.
fn merge_down(a: Vec<Arc<Shape>>, b: Vec<Arc<Shape>>, axis: Axis) -> (rev: Vec<Arc<Shape>>)
    requires
        sorted_along(a@, axis),
        sorted_along(b@, axis),
        all_wf(a@),
        all_wf(b@),
    ensures
        sorted_down(rev@, axis),
        all_wf(rev@),
        rev@.to_multiset() =~= a@.to_multiset().add(b@.to_multiset()),
{
    let ghost total = a@.to_multiset().add(b@.to_multiset());
    let mut a = a;
    let mut b = b;
    let mut rev: Vec<Arc<Shape>> = Vec::new();
    proof {
        assert(rev@.to_multiset() =~= vstd::multiset::Multiset::empty()) by {
            rev@.to_multiset_ensures();
        }
    }
    while a.len() > 0 || b.len() > 0
        invariant
            sorted_along(a@, axis),
            sorted_along(b@, axis),
            sorted_down(rev@, axis),
            all_below(a@, rev@, axis),
            all_below(b@, rev@, axis),
            all_wf(a@),
            all_wf(b@),
            all_wf(rev@),
            a@.to_multiset().add(b@.to_multiset()).add(rev@.to_multiset()) =~= total,
        decreases a.len() + b.len(),
    {
        let take_a = if b.len() == 0 {
            true
        } else if a.len() == 0 {
            false
        } else {
            key_of(&a[a.len() - 1], axis) > key_of(&b[b.len() - 1], axis)
        };
        let ghost a0 = a@;
        let ghost b0 = b@;
        let ghost rev0 = rev@;
        if take_a {
            let x = a.pop().unwrap();
            proof {
                lemma_last_to_multiset(a0);
                to_multiset_build(rev0, x);
            }
            rev.push(x);
        } else {
            let x = b.pop().unwrap();
            proof {
                lemma_last_to_multiset(b0);
                to_multiset_build(rev0, x);
            }
            rev.push(x);
        }
    }
    proof {
        assert(a@.to_multiset() =~= vstd::multiset::Multiset::empty()) by {
            a@.to_multiset_ensures();
        }
        assert(b@.to_multiset() =~= vstd::multiset::Multiset::empty()) by {
            b@.to_multiset_ensures();
        }
    }
    rev
}

/// The shapes in the opposite order.
fn reversed(rev: Vec<Arc<Shape>>) -> (out: Vec<Arc<Shape>>)
    ensures
        out@ =~= rev@.reverse(),
{
    let ghost rev0 = rev@;
    let mut rev = rev;
    let mut out: Vec<Arc<Shape>> = Vec::new();
    while rev.len() > 0
        invariant
            rev@ =~= rev0.subrange(0, rev@.len() as int),
            rev@.len() <= rev0.len(),
            out@.len() == rev0.len() - rev@.len(),
            forall|i: int| 0 <= i < out@.len() ==> out@[i] == rev0[rev0.len() - 1 - i],
        decreases rev.len(),
    {
        let x = rev.pop().unwrap();
        out.push(x);
    }
    out
}

/// Sorts the shapes by the coordinate of their centroids along `axis`, by
/// merging.
pub fn sort_shapes(shapes: Vec<Arc<Shape>>, axis: Axis) -> (out: Vec<Arc<Shape>>)
    requires
        all_wf(shapes@),
    ensures
        sorted_along(out@, axis),
        out@.to_multiset() =~= shapes@.to_multiset(),
        out@.len() == shapes@.len(),
        all_wf(out@),
    decreases shapes@.len(),
{
    if shapes.len() <= 1 {
        return shapes;
    }
    let ghost all = shapes@;
    let mut left = shapes;
    let mid = left.len() / 2;
    let right = left.split_off(mid);
    proof {
        assert(all =~= left@ + right@);
        lemma_multiset_commutative(left@, right@);
    }
    let left = sort_shapes(left, axis);
    let right = sort_shapes(right, axis);
    let rev = merge_down(left, right, axis);
    let out = reversed(rev);
    proof {
        rev@.lemma_reverse_to_multiset();
        out@.to_multiset_ensures();
        all.to_multiset_ensures();
    }
    out
}

} // verus!
