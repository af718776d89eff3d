use raytracer_lib::math::vector::{det3, random_unit_v3, reflect, refract};
use raytracer_lib::math::{create_coordinate_system, CoordinateSystem, Ray, Rotation3, Transform, V3};
use raytracer_lib::scalar::{Real, INFINITY, ONE};

fn fx(x: f64) -> Real {
    (x * 1048576.0).round() as Real
}

fn v3(x: f64, y: f64, z: f64) -> V3 {
    V3::new(fx(x), fx(y), fx(z))
}

#[test]
fn vector_sums_and_differences() {
    let a = v3(1.0, 2.0, 3.0);
    let b = v3(0.5, -1.0, 4.0);
    assert_eq!(a.plus(&b), v3(1.5, 1.0, 7.0));
    assert_eq!(a.minus(&b), v3(0.5, 3.0, -1.0));
    assert_eq!(a.neg(), v3(-1.0, -2.0, -3.0));
    assert_eq!(a.scale(fx(0.5)), v3(0.5, 1.0, 1.5));
    assert_eq!(a.component_mul(&b), v3(0.5, -2.0, 12.0));
    assert_eq!(a.component_div(&v3(2.0, 4.0, 0.5)), v3(0.5, 0.5, 6.0));
    assert_eq!(V3::zero(), v3(0.0, 0.0, 0.0));
}

#[test]
fn vector_sum_saturates() {
    let a = v3(1000.0, -1000.0, 0.0);
    assert_eq!(a.plus(&a), V3::new(INFINITY, -INFINITY, 0));
}

#[test]
fn dot_and_cross_products() {
    let a = v3(1.0, 2.0, 3.0);
    let b = v3(4.0, -5.0, 6.0);
    assert_eq!(a.dot(&b), fx(12.0));
    assert_eq!(a.dot_exact(&b), (fx(12.0) as i128) << 20);
    assert_eq!(a.cross(&b), v3(27.0, 6.0, -13.0));
    assert_eq!(v3(1.0, 0.0, 0.0).cross(&v3(0.0, 1.0, 0.0)), v3(0.0, 0.0, 1.0));
    assert_eq!(a.magnitude_squared(), fx(14.0));
}

#[test]
fn length_and_normalize() {
    let a = v3(3.0, 0.0, -4.0);
    assert_eq!(a.length(), fx(5.0));
    // three fifths and minus four fifths, each rounded down
    assert_eq!(a.normalize(), V3::new(629145, 0, -838861));
    assert_eq!(v3(0.0, 2.0, 0.0).normalize(), v3(0.0, 1.0, 0.0));
    assert_eq!(V3::zero().normalize(), V3::zero());
}

#[test]
fn determinant_of_three_columns() {
    let i = v3(1.0, 0.0, 0.0);
    let j = v3(0.0, 1.0, 0.0);
    let k = v3(0.0, 0.0, 1.0);
    let cube = (ONE as i128) * (ONE as i128) * (ONE as i128);
    assert_eq!(det3(&i, &j, &k), cube);
    assert_eq!(det3(&j, &i, &k), -cube);
    assert_eq!(det3(&i, &i, &k), 0);
    assert_eq!(det3(&v3(2.0, 0.0, 0.0), &v3(1.0, 3.0, 0.0), &v3(5.0, 7.0, 4.0)), 24 * cube);
}

#[test]
fn reflect_mirrors_about_the_normal() {
    let n = v3(0.0, 1.0, 0.0);
    assert_eq!(reflect(&v3(1.0, -1.0, 0.0), &n), v3(1.0, 1.0, 0.0));
    assert_eq!(reflect(&v3(0.0, -1.0, 0.0), &n), v3(0.0, 1.0, 0.0));
    assert_eq!(reflect(&v3(1.0, 0.0, 0.0), &n), v3(1.0, 0.0, 0.0));
}

#[test]
fn refract_head_on_keeps_the_direction() {
    let n = v3(0.0, 0.0, 1.0);
    let d = v3(0.0, 0.0, -1.0);
    assert_eq!(refract(&d, &n, fx(1.0 / 1.5)), d);
    assert_eq!(refract(&d, &n, fx(1.5)), d);
    assert_eq!(refract(&d, &n, fx(1.0)), d);
}

#[test]
fn refract_with_equal_indices_keeps_the_direction() {
    let n = v3(0.0, 1.0, 0.0);
    let d = v3(0.6, -0.8, 0.0);
    let r = refract(&d, &n, ONE);
    assert!((r.x - d.x).abs() <= 4, "{:?}", r);
    assert!((r.y - d.y).abs() <= 4, "{:?}", r);
    assert_eq!(r.z, 0);
}

#[test]
fn random_unit_vectors_have_length_one() {
    let mut rng = rand::thread_rng();
    let mut distinct = false;
    let first = random_unit_v3(&mut rng);
    for _ in 0..200 {
        let v = random_unit_v3(&mut rng);
        assert!(v.x.abs() <= ONE && v.y.abs() <= ONE && v.z.abs() <= ONE);
        let len = v.length();
        assert!((len - ONE).abs() <= 64, "length {}", len);
        if v != first {
            distinct = true;
        }
    }
    assert!(distinct);
}

#[test]
fn ray_points_and_atob() {
    let r = Ray { origin: v3(1.0, 2.0, 3.0), direction: v3(0.0, 0.0, -2.0) };
    assert_eq!(r.point_at(fx(1.5)), v3(1.0, 2.0, 0.0));
    assert_eq!(r.point_at(0), r.origin);
    let ab = Ray::atob(v3(1.0, 1.0, 1.0), v3(4.0, 0.0, 1.5));
    assert_eq!(ab.origin, v3(1.0, 1.0, 1.0));
    assert_eq!(ab.direction, v3(3.0, -1.0, 0.5));
    assert_eq!(ab.point_at(ONE), v3(4.0, 0.0, 1.5));
}

#[test]
fn coordinate_system_looking_down_z() {
    let c = CoordinateSystem::new(v3(0.0, 0.0, 5.0), &v3(0.0, 0.0, -2.0));
    assert_eq!(c.w, v3(0.0, 0.0, 1.0));
    assert_eq!(c.u, v3(1.0, 0.0, 0.0));
    assert_eq!(c.v, v3(0.0, 1.0, 0.0));
    assert_eq!(c.position, v3(0.0, 0.0, 5.0));
}

#[test]
fn coordinate_system_looking_straight_down() {
    // the view is along the world's up, so another helper axis is taken
    let c = CoordinateSystem::new(v3(0.0, 0.0, 0.0), &v3(0.0, -1.0, 0.0));
    assert_eq!(c.w, v3(0.0, 1.0, 0.0));
    assert_eq!(c.u, v3(0.0, 0.0, 1.0));
    assert_eq!(c.v, v3(1.0, 0.0, 0.0));
}

#[test]
fn tangent_frame_of_a_normal() {
    let (t, b) = create_coordinate_system(&v3(0.0, 0.0, 1.0));
    assert_eq!(b, v3(0.0, 1.0, 0.0));
    assert_eq!(t, v3(1.0, 0.0, 0.0));
    let (t, b) = create_coordinate_system(&v3(1.0, 0.0, 0.0));
    assert_eq!(b, v3(0.0, 0.0, 1.0));
    assert_eq!(t, v3(0.0, 1.0, 0.0));
}

#[test]
fn transforms_compose_and_invert() {
    let t = v3(1.0, 2.0, 3.0);
    let s = v3(2.0, 4.0, 0.5);
    let r = Rotation3::identity();
    let forward = Transform::compose(&t, &r, &s);
    let back = Transform::compose_inverse(&t, &r, &s);
    let p = v3(1.0, 1.0, 2.0);
    let q = forward.transform_point(&p);
    assert_eq!(q, v3(3.0, 6.0, 4.0));
    assert_eq!(back.transform_point(&q), p);
    assert_eq!(forward.transform_vector(&p), v3(2.0, 4.0, 1.0));
    let n = Transform::normal_matrix(&r, &s);
    assert_eq!(n.transform_vector(&v3(1.0, 1.0, 1.0)), v3(0.5, 0.25, 2.0));
}

#[test]
fn transforms_rotate() {
    // a quarter turn about z: x goes to y
    let r = Rotation3 { x: v3(0.0, -1.0, 0.0), y: v3(1.0, 0.0, 0.0), z: v3(0.0, 0.0, 1.0) };
    let one = v3(1.0, 1.0, 1.0);
    let forward = Transform::compose(&V3::zero(), &r, &one);
    let back = Transform::compose_inverse(&V3::zero(), &r, &one);
    assert_eq!(forward.transform_vector(&v3(1.0, 0.0, 0.0)), v3(0.0, 1.0, 0.0));
    assert_eq!(back.transform_vector(&v3(0.0, 1.0, 0.0)), v3(1.0, 0.0, 0.0));
}
