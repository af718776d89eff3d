use raytracer_lib::geometry::BBox;
use raytracer_lib::math::{Ray, Rotation3, Transform, P3, V3};
use raytracer_lib::scalar::{Real, INFINITY};

fn fx(x: f64) -> Real {
    (x * 1048576.0).round() as Real
}

fn v3(x: f64, y: f64, z: f64) -> V3 {
    V3::new(fx(x), fx(y), fx(z))
}

#[test]
fn test_bbox_ray_intersections() {
    let b1 = BBox::new(v3(-0.25, -0.25, -2.25), v3(0.25, 0.25, -1.75));

    let r1 = Ray { origin: v3(0.0, 0.0, 0.0), direction: v3(0.0, 0.0, -1.0) };
    let r2 = Ray { origin: v3(0.0, 0.0, 0.0), direction: v3(0.0, 0.0, 1.0) };
    let r3 = Ray { origin: v3(1.25, 1.25, 0.25), direction: v3(-1.0, -1.0, -2.0) };
    let r4 = Ray { origin: v3(0.0, 0.0, 0.0), direction: v3(-2.0, -2.0, -1.0) };

    let b2 = BBox::new(v3(-10.0, -300.0, -8.0), v3(302.0, 300.0, 600.0));
    let r5 = Ray { origin: v3(80.0, -100.0, 300.0), direction: v3(0.1871, 0.6359, -0.7488) };

    assert!(b1.hit(&r1, fx(1.0), INFINITY).is_some());
    assert!(b1.hit(&r2, fx(1.0), INFINITY).is_none());
    assert!(b1.hit(&r3, fx(1.0), INFINITY).is_some());
    assert!(b1.hit(&r4, fx(1.0), INFINITY).is_none());
    assert!(b2.hit(&r5, fx(1.0), INFINITY).is_some());
}

#[test]
fn bbox_hit_returns_entry_distance() {
    let b = BBox::new(v3(-0.25, -0.25, -2.25), v3(0.25, 0.25, -1.75));
    let r = Ray { origin: v3(0.0, 0.0, 0.0), direction: v3(0.0, 0.0, -1.0) };
    assert_eq!(b.hit(&r, fx(1.0), INFINITY), Some(fx(1.75)));
    assert_eq!(b.hit(&r, fx(2.0), INFINITY), Some(fx(2.0)));
    assert_eq!(b.hit(&r, fx(1.0), fx(1.5)), None);
    let p: P3 = r.point_at(fx(1.75));
    assert_eq!(p, v3(0.0, 0.0, -1.75));
}

#[test]
fn boxes_keep_their_centre_and_size() {
    let b = BBox::new(v3(-1.0, 0.0, 2.0), v3(3.0, 0.5, 2.0));
    assert_eq!(b.min, v3(-1.0, 0.0, 2.0));
    assert_eq!(b.max, v3(3.0, 0.5, 2.0));
    assert_eq!(b.centroid, v3(1.0, 0.25, 2.0));
    assert_eq!(b.extent, v3(4.0, 0.5, 0.0));
}

#[test]
fn boxes_from_corners_in_any_order() {
    let b = BBox::from_corners(v3(3.0, 0.0, 2.0), v3(-1.0, 0.5, -2.0));
    assert_eq!(b.min, v3(-1.0, 0.0, -2.0));
    assert_eq!(b.max, v3(3.0, 0.5, 2.0));
    assert_eq!(b, BBox::new(v3(-1.0, 0.0, -2.0), v3(3.0, 0.5, 2.0)));
}

#[test]
fn combined_boxes_hold_both() {
    let a = BBox::new(v3(-1.0, 0.0, 0.0), v3(1.0, 1.0, 1.0));
    let b = BBox::new(v3(0.0, -2.0, 0.5), v3(0.5, 0.5, 3.0));
    let c = BBox::combine(&a, &b);
    assert_eq!(c, BBox::new(v3(-1.0, -2.0, 0.0), v3(1.0, 1.0, 3.0)));
    assert_eq!(BBox::combine(&b, &a), c);
    assert_eq!(BBox::combine(&a, &a), a);
    assert_eq!(c.centroid, v3(0.0, -0.5, 1.5));
    assert_eq!(c.extent, v3(2.0, 3.0, 3.0));
}

#[test]
fn transformed_boxes_hold_the_transformed_corners() {
    let b = BBox::new(v3(-1.0, -1.0, -1.0), v3(1.0, 2.0, 3.0));
    // a quarter turn about z, twice the size, moved along x
    let r = Rotation3 { x: v3(0.0, -1.0, 0.0), y: v3(1.0, 0.0, 0.0), z: v3(0.0, 0.0, 1.0) };
    let t = Transform::compose(&v3(10.0, 0.0, 0.0), &r, &v3(2.0, 2.0, 2.0));
    let moved = b.transform(&t);
    assert_eq!(moved.min, v3(6.0, -2.0, -2.0));
    assert_eq!(moved.max, v3(12.0, 2.0, 6.0));
    assert!(moved.min.x <= moved.max.x && moved.min.y <= moved.max.y && moved.min.z <= moved.max.z);
    // a mirror turns the corners around, and the box is still in order
    let flip = Transform::compose(&V3::zero(), &Rotation3::identity(), &v3(-1.0, 1.0, 1.0));
    let flipped = b.transform(&flip);
    assert_eq!(flipped.min, v3(-1.0, -1.0, -1.0));
    assert_eq!(flipped.max, v3(1.0, 2.0, 3.0));
}

#[test]
fn rays_along_an_axis_inside_and_outside_the_slabs() {
    let b = BBox::new(v3(-1.0, -1.0, -1.0), v3(1.0, 1.0, 1.0));
    let inside = Ray { origin: v3(0.5, 1.0, -5.0), direction: v3(0.0, 0.0, 2.0) };
    assert_eq!(b.hit(&inside, 0, INFINITY), Some(fx(2.0)));
    let outside = Ray { origin: v3(0.5, 1.5, -5.0), direction: v3(0.0, 0.0, 2.0) };
    assert_eq!(b.hit(&outside, 0, INFINITY), None);
    let still = Ray { origin: v3(0.0, 0.0, 0.0), direction: V3::zero() };
    assert_eq!(b.hit(&still, fx(1.0), INFINITY), Some(fx(1.0)));
    // a box without depth is never hit across it
    let flat = BBox::new(v3(-1.0, -1.0, 0.0), v3(1.0, 1.0, 0.0));
    assert_eq!(flat.hit(&inside, 0, INFINITY), None);
}

#[test]
fn defaults() {
    assert_eq!(V3::default(), V3::zero());
    assert_eq!(Ray::default(), Ray { origin: V3::zero(), direction: V3::zero() });
    let p: P3 = P3::default();
    assert_eq!(p, V3::new(0, 0, 0));
}
