use raytracer_lib::geometry::Sphere;
use raytracer_lib::hit_record::HitRecord;
use raytracer_lib::material::{Lambertian, Material};
use raytracer_lib::math::angle::{atan2_turns, atan_unit, sphere_uv};
use raytracer_lib::math::{Ray, V3};
use raytracer_lib::scalar::{Real, ONE};
use raytracer_lib::texture::{CheckeredTexture, Texture};
use std::sync::Arc;

fn fx(x: f64) -> Real {
    (x * 1048576.0).round() as Real
}

fn v3(x: f64, y: f64, z: f64) -> V3 {
    V3::new(fx(x), fx(y), fx(z))
}

#[test]
fn arc_tangent_is_exact_at_its_ends() {
    assert_eq!(atan_unit(0), 0);
    assert_eq!(atan_unit(ONE), ONE / 8);
    assert_eq!(atan_unit(-5), 0);
    assert_eq!(atan_unit(3 * ONE), ONE / 8);
}

#[test]
fn arc_tangent_is_close_between_its_ends() {
    for k in 0..=1000 {
        let t = k as f64 / 1000.0;
        let exact = t.atan() / (2.0 * std::f64::consts::PI);
        let got = atan_unit(fx(t)) as f64 / ONE as f64;
        assert!((got - exact).abs() < 0.0003, "{} {} {}", t, got, exact);
    }
}

#[test]
fn angles_on_the_axes_and_diagonals() {
    assert_eq!(atan2_turns(0, 0), 0);
    assert_eq!(atan2_turns(0, ONE), 0);
    assert_eq!(atan2_turns(ONE, ONE), ONE / 8);
    assert_eq!(atan2_turns(ONE, 0), ONE / 4);
    assert_eq!(atan2_turns(ONE, -ONE), 3 * ONE / 8);
    assert_eq!(atan2_turns(0, -ONE), ONE / 2);
    assert_eq!(atan2_turns(-ONE, -ONE), -3 * ONE / 8);
    assert_eq!(atan2_turns(-ONE, 0), -ONE / 4);
    assert_eq!(atan2_turns(-ONE, ONE), -ONE / 8);
    assert_eq!(atan2_turns(fx(3.0), fx(3.0)), ONE / 8);
}

#[test]
fn angles_are_close_everywhere() {
    for k in 0..720 {
        let angle = (k as f64 - 360.0) * std::f64::consts::PI / 360.0 + 0.001;
        let (y, x) = (2.0 * angle.sin(), 2.0 * angle.cos());
        let exact = y.atan2(x) / (2.0 * std::f64::consts::PI);
        let got = atan2_turns(fx(y), fx(x)) as f64 / ONE as f64;
        assert!((got - exact).abs() < 0.0003, "{} {} {}", angle, got, exact);
    }
}

#[test]
fn sphere_coordinates_on_the_axes() {
    assert_eq!(sphere_uv(&v3(1.0, 0.0, 0.0)), (ONE / 2, ONE / 2));
    assert_eq!(sphere_uv(&v3(-1.0, 0.0, 0.0)), (ONE, ONE / 2));
    assert_eq!(sphere_uv(&v3(0.0, 0.0, 1.0)), (ONE / 4, ONE / 2));
    assert_eq!(sphere_uv(&v3(0.0, 0.0, -1.0)), (3 * ONE / 4, ONE / 2));
    assert_eq!(sphere_uv(&v3(0.0, 1.0, 0.0)).1, 0);
    assert_eq!(sphere_uv(&v3(0.0, -1.0, 0.0)).1, ONE);
}

#[test]
fn sphere_coordinates_follow_the_spherical_angles() {
    let pi = std::f64::consts::PI;
    for a in 0..24 {
        for b in 1..12 {
            let phi = a as f64 * pi / 12.0 + 0.01;
            let theta = b as f64 * pi / 12.0;
            let (x, y, z) = (theta.sin() * phi.cos(), theta.cos(), theta.sin() * phi.sin());
            let u = ((-z).atan2(x) + pi) / (2.0 * pi);
            let v = y.acos() / pi;
            let (gu, gv) = sphere_uv(&v3(x, y, z));
            assert!((gu as f64 / ONE as f64 - u).abs() < 0.0005, "u {} {} {}", a, b, gu);
            assert!((gv as f64 / ONE as f64 - v).abs() < 0.004, "v {} {} {}", a, b, gv);
        }
    }
}

#[test]
fn sphere_hits_carry_their_coordinates() {
    let checker = Arc::new(Texture::Checkered(CheckeredTexture::new(
        v3(1.0, 1.0, 1.0),
        v3(0.0, 0.0, 0.0),
        fx(0.5),
    )));
    let m = Arc::new(Material::Lambertian(Lambertian::new(checker)));
    let s = Sphere::new(v3(0.0, 0.0, -5.0), fx(1.0), m);
    let mut hit = HitRecord::new(Ray { origin: V3::zero(), direction: v3(0.0, 0.0, -1.0) });
    assert!(s.closest_hit(&mut hit));
    // the point that faces the ray looks along the positive z axis
    assert_eq!(hit.hit_data.unwrap().uv, (ONE / 4, ONE / 2));
    let mut hit = HitRecord::new(Ray { origin: v3(-5.0, 0.0, -5.0), direction: v3(1.0, 0.0, 0.0) });
    assert!(s.closest_hit(&mut hit));
    assert_eq!(hit.hit_data.unwrap().uv, (ONE, ONE / 2));
}

#[test]
fn arc_tangent_grows_with_the_tangent() {
    let mut last = atan_unit(0);
    let mut t = 0;
    while t <= ONE {
        let a = atan_unit(t);
        assert!(a >= last, "{} {} {}", t, a, last);
        last = a;
        t += 7;
    }
    // also step by step where the slope is smallest, near the upper end
    let mut last = atan_unit(ONE - 5000);
    for t in ONE - 5000..=ONE {
        let a = atan_unit(t);
        assert!(a >= last);
        last = a;
    }
    assert_eq!(last, ONE / 8);
}
