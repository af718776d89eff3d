use raytracer_lib::hit_record::{HitData, HitRecord};
use raytracer_lib::material::dielectric::{powi, reflectance};
use raytracer_lib::material::{Dielectric, Diffuse, DiffuseLight, Lambertian, Material, Metal};
use raytracer_lib::math::{Ray, V3};
use raytracer_lib::math::vector::keep_direction;
use raytracer_lib::sampling::{draw_samples, keep_disk_point, random_in_unit_disk, Sample};
use raytracer_lib::scalar::{Real, ONE};
use raytracer_lib::texture::{CheckeredTexture, ImageTexture, SolidColor, Texture};
use std::sync::Arc;

fn fx(x: f64) -> Real {
    (x * 1048576.0).round() as Real
}

fn v3(x: f64, y: f64, z: f64) -> V3 {
    V3::new(fx(x), fx(y), fx(z))
}

fn solid(r: f64, g: f64, b: f64) -> Arc<Texture> {
    Arc::new(Texture::SolidColor(SolidColor::new(v3(r, g, b))))
}

// a ray down the z axis that has hit a surface facing it at z = -4
fn hit_at_four<'a>() -> HitRecord<'a> {
    let mut hit = HitRecord::new(Ray { origin: V3::zero(), direction: v3(0.0, 0.0, -1.0) });
    hit.t = fx(4.0);
    hit
}

fn facing<'a>(material: &'a Material) -> HitData<'a> {
    HitData { uv: (0, 0), normal: v3(0.0, 0.0, 1.0), front_face: true, material }
}

#[test]
fn lambertian_scatters_around_the_normal() {
    let m = Material::Lambertian(Lambertian::new(solid(0.5, 0.25, 0.125)));
    let hit = hit_at_four();
    let data = facing(&m);
    let sample = Sample { direction: v3(0.0, 1.0, 0.0), fraction: 0 };
    let (ray, attenuation) = m.scatter_with(&hit, &data, &sample).unwrap();
    assert_eq!(ray.origin, v3(0.0, 0.0, -4.0));
    assert_eq!(ray.direction, V3::new(0, 741455, 741455));
    assert_eq!(attenuation, v3(0.5, 0.25, 0.125));
}

#[test]
fn lambertian_falls_back_to_the_normal() {
    let m = Material::Lambertian(Lambertian::new(solid(0.5, 0.5, 0.5)));
    let hit = hit_at_four();
    let data = facing(&m);
    let sample = Sample { direction: v3(0.0, 0.0, -1.0), fraction: 0 };
    let (ray, _) = m.scatter_with(&hit, &data, &sample).unwrap();
    assert_eq!(ray.direction, v3(0.0, 0.0, 1.0));
}

#[test]
fn diffuse_scatters_into_the_hemisphere() {
    let m = Material::Diffuse(Diffuse::new(solid(0.5, 0.5, 0.5)));
    let hit = hit_at_four();
    let data = facing(&m);
    // a direction below the surface is turned around first
    let below = Sample { direction: v3(0.0, -0.6, -0.8), fraction: 0 };
    let above = Sample { direction: v3(0.0, 0.6, 0.8), fraction: 0 };
    let (a, _) = m.scatter_with(&hit, &data, &below).unwrap();
    let (b, _) = m.scatter_with(&hit, &data, &above).unwrap();
    assert_eq!(a, b);
    // (0, 0.6, 1.8) normalised
    assert!((a.direction.y - fx(0.31622776)).abs() <= 4, "{:?}", a.direction);
    assert!((a.direction.z - fx(0.94868329)).abs() <= 4, "{:?}", a.direction);
    assert_eq!(a.direction.x, 0);
}

#[test]
fn metal_reflects() {
    let m = Material::Metal(Metal::new(solid(0.8, 0.8, 0.8), 0));
    let mut hit = HitRecord::new(Ray { origin: V3::zero(), direction: v3(1.0, 0.0, -1.0) });
    hit.t = fx(2.0);
    let data = facing(&m);
    let sample = Sample { direction: v3(0.0, 1.0, 0.0), fraction: 0 };
    let (ray, attenuation) = m.scatter_with(&hit, &data, &sample).unwrap();
    assert_eq!(ray.origin, v3(2.0, 0.0, -2.0));
    assert_eq!(ray.direction, V3::new(741455, 0, 741455));
    assert_eq!(attenuation, v3(0.8, 0.8, 0.8));
}

#[test]
fn metal_fuzz_is_cut_off_at_one() {
    let m = Metal::new(solid(0.8, 0.8, 0.8), fx(3.0));
    assert_eq!(m.fuzz, ONE);
    let m = Metal::new(solid(0.8, 0.8, 0.8), fx(0.25));
    assert_eq!(m.fuzz, fx(0.25));
}

#[test]
fn metal_absorbs_what_is_pushed_into_the_surface() {
    let m = Material::Metal(Metal::new(solid(0.8, 0.8, 0.8), ONE));
    let mut hit = HitRecord::new(Ray { origin: V3::zero(), direction: v3(1.0, 0.0, -1.0) });
    hit.t = fx(2.0);
    let data = facing(&m);
    let sample = Sample { direction: v3(0.0, 0.0, -1.0), fraction: 0 };
    assert!(m.scatter_with(&hit, &data, &sample).is_none());
}

#[test]
fn schlick_reflectance() {
    assert_eq!(powi(fx(0.5), 0), ONE);
    assert_eq!(powi(fx(0.5), 3), fx(0.125));
    assert_eq!(powi(fx(-2.0), 3), fx(-8.0));
    // head-on, only the base reflectance is left: ((1 - n) / (1 + n))^2
    let index = fx(1.0 / 1.5);
    assert_eq!(index, 699051);
    let r0 = reflectance(ONE, 699050);
    assert_eq!(r0, 41942);
    // at a grazing angle everything is reflected
    assert_eq!(reflectance(0, 699050), ONE);
    assert_eq!(reflectance(ONE, ONE), 0);
}

#[test]
fn dielectric_head_on_refracts_straight_through_and_back_out() {
    let glass = Material::Dielectric(Dielectric::new(solid(1.0, 1.0, 1.0), fx(1.5)));
    let hit = hit_at_four();
    let entering = facing(&glass);
    let sample = Sample { direction: v3(1.0, 0.0, 0.0), fraction: fx(0.5) };
    let (inside, attenuation) = glass.scatter_with(&hit, &entering, &sample).unwrap();
    assert_eq!(inside.origin, v3(0.0, 0.0, -4.0));
    assert_eq!(inside.direction, v3(0.0, 0.0, -1.0));
    assert_eq!(attenuation, v3(1.0, 1.0, 1.0));
    // the far side of the slab: a back face whose normal faces the ray again
    let mut far = HitRecord::new(inside);
    far.t = fx(1.0);
    let leaving = HitData { front_face: false, ..entering };
    let (outside, _) = glass.scatter_with(&far, &leaving, &sample).unwrap();
    assert_eq!(outside.origin, v3(0.0, 0.0, -5.0));
    assert_eq!(outside.direction, hit.ray.direction);
}

#[test]
fn dielectric_reflects_below_its_reflectance() {
    let glass = Material::Dielectric(Dielectric::new(solid(1.0, 1.0, 1.0), fx(1.5)));
    let hit = hit_at_four();
    let data = facing(&glass);
    let sample = Sample { direction: v3(1.0, 0.0, 0.0), fraction: 0 };
    let (ray, _) = glass.scatter_with(&hit, &data, &sample).unwrap();
    assert_eq!(ray.direction, v3(0.0, 0.0, 1.0));
    // just above the base reflectance the ray is refracted again
    let sample = Sample { direction: v3(1.0, 0.0, 0.0), fraction: 41942 };
    let (ray, _) = glass.scatter_with(&hit, &data, &sample).unwrap();
    assert_eq!(ray.direction, v3(0.0, 0.0, -1.0));
}

#[test]
fn dielectric_total_internal_reflection() {
    // leaving glass at a flat angle: sin = 0.8 and 1.5 * 0.8 > 1
    let glass = Material::Dielectric(Dielectric::new(solid(1.0, 1.0, 1.0), fx(1.5)));
    let mut hit = HitRecord::new(Ray { origin: V3::zero(), direction: v3(0.8, 0.0, -0.6) });
    hit.t = fx(1.0);
    let data = HitData { front_face: false, ..facing(&glass) };
    let sample = Sample { direction: v3(1.0, 0.0, 0.0), fraction: ONE - 1 };
    let (ray, _) = glass.scatter_with(&hit, &data, &sample).unwrap();
    assert!(ray.direction.z > 0, "{:?}", ray.direction);
    assert!((ray.direction.x - fx(0.8)).abs() <= 8, "{:?}", ray.direction);
    assert!((ray.direction.z - fx(0.6)).abs() <= 8, "{:?}", ray.direction);
}

#[test]
fn lights_emit_and_end_the_path() {
    let light = Material::DiffuseLight(DiffuseLight::new(solid(4.0, 3.0, 2.0)));
    let hit = hit_at_four();
    let data = facing(&light);
    let sample = Sample { direction: v3(0.0, 1.0, 0.0), fraction: 0 };
    assert!(light.scatter_with(&hit, &data, &sample).is_none());
    assert!(light.scatter(&hit, &data).is_none());
    assert_eq!(light.emitted((0, 0), &v3(0.0, 0.0, -4.0)), v3(4.0, 3.0, 2.0));
    let grey = Material::Lambertian(Lambertian::new(solid(0.5, 0.5, 0.5)));
    assert_eq!(grey.emitted((0, 0), &v3(0.0, 0.0, -4.0)), V3::zero());
    let steel = Material::Metal(Metal::new(solid(0.5, 0.5, 0.5), 0));
    assert_eq!(steel.emitted((0, 0), &v3(0.0, 0.0, -4.0)), V3::zero());
}

#[test]
fn attenuation_stays_between_zero_and_one() {
    let materials = vec![
        Material::Lambertian(Lambertian::new(solid(1.0, 0.0, 0.5))),
        Material::Diffuse(Diffuse::new(solid(0.25, 1.0, 0.0))),
        Material::Metal(Metal::new(solid(0.9, 0.9, 1.0), fx(0.3))),
        Material::Dielectric(Dielectric::new(solid(1.0, 1.0, 1.0), fx(1.5))),
        Material::Lambertian(Lambertian::new(Arc::new(Texture::Checkered(CheckeredTexture::new(
            v3(1.0, 1.0, 1.0),
            v3(0.0, 0.0, 0.0),
            fx(0.25),
        ))))),
    ];
    let hit = hit_at_four();
    for m in &materials {
        for k in 0..50 {
            let data = HitData { uv: (fx(k as f64 / 50.0), fx(0.3)), ..facing(m) };
            if let Some((ray, a)) = m.scatter(&hit, &data) {
                assert!(0 <= a.x && a.x <= ONE, "{:?}", a);
                assert!(0 <= a.y && a.y <= ONE, "{:?}", a);
                assert!(0 <= a.z && a.z <= ONE, "{:?}", a);
                assert_eq!(ray.origin, v3(0.0, 0.0, -4.0));
            }
        }
    }
}

#[test]
fn samples_are_within_their_bounds() {
    let mut rng = rand::thread_rng();
    let samples = draw_samples(&mut rng, 100);
    assert_eq!(samples.len(), 100);
    let mut fractions_differ = false;
    for s in &samples {
        assert!(0 <= s.fraction && s.fraction < ONE);
        assert!(s.direction.x.abs() <= ONE);
        assert!((s.direction.length() - ONE).abs() <= 64);
        if s.fraction != samples[0].fraction {
            fractions_differ = true;
        }
    }
    assert!(fractions_differ);
    assert!(draw_samples(&mut rng, 0).is_empty());
    for _ in 0..100 {
        let (x, y) = random_in_unit_disk(&mut rng);
        assert!(x * x + y * y < ONE * ONE);
    }
}

#[test]
fn solid_and_checkered_textures() {
    let p = V3::zero();
    let s = Texture::SolidColor(SolidColor::new(v3(0.1, 0.2, 0.3)));
    assert_eq!(s.color((fx(0.7), fx(0.1)), &p), v3(0.1, 0.2, 0.3));
    let white = v3(1.0, 1.0, 1.0);
    let black = v3(0.0, 0.0, 0.0);
    let c = CheckeredTexture::new(white, black, fx(0.25));
    assert_eq!(c.inv_scale, fx(4.0));
    let c = Texture::Checkered(c);
    assert_eq!(c.color((fx(0.1), fx(0.1)), &p), white);
    assert_eq!(c.color((fx(0.3), fx(0.1)), &p), black);
    assert_eq!(c.color((fx(0.3), fx(0.3)), &p), white);
    assert_eq!(c.color((fx(0.6), fx(0.3)), &p), black);
    assert_eq!(c.color((fx(-0.1), fx(0.1)), &p), black);
}

#[test]
fn image_texture_lookup() {
    let data = vec![v3(1.0, 0.0, 0.0), v3(0.0, 1.0, 0.0), v3(0.0, 0.0, 1.0), v3(1.0, 1.0, 1.0)];
    let img = ImageTexture::new(2, 2, data.clone(), v3(0.5, 0.5, 0.5)).unwrap();
    let t = Texture::Image(img);
    let p = V3::zero();
    // v counts from the bottom row, the data from the top
    assert_eq!(t.color((fx(0.1), fx(0.9)), &p), v3(0.5, 0.0, 0.0));
    assert_eq!(t.color((fx(0.9), fx(0.9)), &p), v3(0.0, 0.5, 0.0));
    assert_eq!(t.color((fx(0.1), fx(0.1)), &p), v3(0.0, 0.0, 0.5));
    assert_eq!(t.color((fx(0.9), fx(0.1)), &p), v3(0.5, 0.5, 0.5));
    // out of range coordinates are cut off
    assert_eq!(t.color((fx(7.0), fx(-3.0)), &p), v3(0.5, 0.5, 0.5));
    assert_eq!(t.color((fx(-7.0), fx(3.0)), &p), v3(0.5, 0.0, 0.0));
    assert_eq!(t.color((ONE, 0), &p), v3(0.5, 0.5, 0.5));
    assert!(ImageTexture::new(2, 2, data.clone(), v3(1.0, 1.0, 1.0)).is_some());
    assert!(ImageTexture::new(3, 2, data.clone(), v3(1.0, 1.0, 1.0)).is_none());
    assert!(ImageTexture::new(0, 2, Vec::new(), v3(1.0, 1.0, 1.0)).is_none());
    assert!(ImageTexture::new(2, 0, Vec::new(), v3(1.0, 1.0, 1.0)).is_none());
}

#[test]
fn drawn_points_are_kept_inside_the_ball() {
    assert_eq!(keep_direction(&v3(0.0, 0.5, 0.0)), Some(v3(0.0, 1.0, 0.0)));
    assert_eq!(keep_direction(&v3(-0.25, 0.0, 0.0)), Some(v3(-1.0, 0.0, 0.0)));
    assert_eq!(keep_direction(&v3(0.5, 0.5, 0.0)), Some(V3::new(741455, 741455, 0)));
    // on the ball's surface the point is still kept
    assert_eq!(keep_direction(&v3(0.0, 0.0, 1.0)), Some(v3(0.0, 0.0, 1.0)));
    // outside the ball and at its centre another point has to be drawn
    assert_eq!(keep_direction(&v3(0.9, 0.9, 0.0)), None);
    assert_eq!(keep_direction(&v3(1.0, 0.0, 0.001)), None);
    assert_eq!(keep_direction(&V3::zero()), None);
    assert_eq!(keep_direction(&V3::new(1, 1, 1)), None);
    // the squared length has to exceed the smallest real
    assert_eq!(keep_direction(&V3::new(1024, 0, 0)), None);
    assert_eq!(keep_direction(&V3::new(1448, 0, 0)), None);
    assert_eq!(keep_direction(&V3::new(1449, 0, 0)), Some(v3(1.0, 0.0, 0.0)));
    assert_eq!(keep_direction(&V3::new(0, -2048, 0)), Some(v3(0.0, -1.0, 0.0)));
}

#[test]
fn drawn_points_are_kept_inside_the_disk() {
    assert_eq!(keep_disk_point(0, 0), Some((0, 0)));
    assert_eq!(keep_disk_point(fx(0.5), fx(-0.5)), Some((fx(0.5), fx(-0.5))));
    assert_eq!(keep_disk_point(ONE - 1, 0), Some((ONE - 1, 0)));
    assert_eq!(keep_disk_point(ONE, 0), None);
    assert_eq!(keep_disk_point(0, -ONE), None);
    assert_eq!(keep_disk_point(fx(0.8), fx(0.8)), None);
    assert_eq!(keep_disk_point(fx(-0.75), fx(0.75)), None);
}
