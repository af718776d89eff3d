use raytracer_lib::antialias::AntialiasMethod;
use raytracer_lib::camera::{Camera, PerspectiveCamera};
use raytracer_lib::framebuffer::Framebuffer;
use raytracer_lib::geometry::{Cuboid, Shape, Sphere};
use raytracer_lib::hit_record::HitRecord;
use raytracer_lib::material::{DiffuseLight, Lambertian, Material, Metal};
use raytracer_lib::math::{Ray, V3};
use raytracer_lib::render::{ray_color, ray_color_with, render, render_pixel, sample_pixel};
use raytracer_lib::sampling::Sample;
use raytracer_lib::scalar::Real;
use raytracer_lib::scene::Scene;
use raytracer_lib::texture::{SolidColor, Texture};
use std::sync::Arc;

fn fx(x: f64) -> Real {
    (x * 1048576.0).round() as Real
}

fn v3(x: f64, y: f64, z: f64) -> V3 {
    V3::new(fx(x), fx(y), fx(z))
}

fn solid(r: f64, g: f64, b: f64) -> Arc<Texture> {
    Arc::new(Texture::SolidColor(SolidColor::new(v3(r, g, b))))
}

fn camera() -> Camera {
    Camera::Perspective(PerspectiveCamera::new(V3::zero(), &v3(0.0, 0.0, -1.0), fx(1.0), fx(1.0)))
}

fn scene(shapes: Vec<Arc<Shape>>, background: V3, depth: u16, width: u32, height: u32) -> Scene {
    Scene::new(camera(), shapes, background, depth, width, height)
}

fn down_z() -> Ray {
    Ray { origin: V3::zero(), direction: v3(0.0, 0.0, -1.0) }
}

fn up() -> Sample {
    Sample { direction: v3(0.0, 0.0, 1.0), fraction: fx(0.5) }
}

#[test]
fn scene_sets_the_camera_to_the_image() {
    let s = scene(Vec::new(), v3(0.1, 0.2, 0.3), 3, 40, 30);
    assert_eq!(s.camera.camera_base().pixels_x, 40);
    assert_eq!(s.camera.camera_base().pixels_y, 30);
    assert_eq!(s.image_width, 40);
    assert_eq!(s.image_height, 30);
    assert_eq!(s.recursion_depth, 3);
    assert_eq!(s.background_color, v3(0.1, 0.2, 0.3));
}

#[test]
fn empty_scene_renders_the_background_everywhere() {
    let background = v3(0.198, 0.5, 0.75);
    for method in [AntialiasMethod::Normal, AntialiasMethod::Jittered, AntialiasMethod::Random] {
        for depth in [1u16, 3, 50] {
            for n in [1u16, 2, 3] {
                let s = scene(Vec::new(), background, depth, 5, 4);
                let fb = render(&s, n, method);
                assert_eq!(fb.dimensions(), (5, 4));
                assert_eq!(fb.samples, vec![(n * n) as u32; 20]);
                assert_eq!(fb.get_pixels(), vec![background; 20]);
            }
        }
    }
}

#[test]
fn without_depth_every_path_is_black() {
    let s = scene(Vec::new(), v3(0.5, 0.5, 0.5), 0, 3, 3);
    let fb = render(&s, 2, AntialiasMethod::Normal);
    assert_eq!(fb.get_pixels(), vec![V3::zero(); 9]);
    assert_eq!(ray_color(&s, HitRecord::new(down_z())), V3::zero());
}

#[test]
fn a_light_is_seen_as_it_emits() {
    let light = Arc::new(Material::DiffuseLight(DiffuseLight::new(solid(4.0, 3.0, 2.0))));
    let shapes = vec![Arc::new(Shape::Sphere(Sphere::new(v3(0.0, 0.0, -5.0), fx(1.0), light)))];
    let s = scene(shapes, v3(0.1, 0.1, 0.1), 3, 9, 9);
    assert_eq!(ray_color(&s, HitRecord::new(down_z())), v3(4.0, 3.0, 2.0));
    let away = Ray { origin: V3::zero(), direction: v3(0.0, 1.0, 0.0) };
    assert_eq!(ray_color(&s, HitRecord::new(away)), v3(0.1, 0.1, 0.1));
    let mut fb = Framebuffer::new(9, 9);
    render_pixel(&mut fb, &s, 2, AntialiasMethod::Jittered, 4, 4);
    assert_eq!(fb.samples[fb.index(4, 4)], 4);
    assert_eq!(fb.get_pixel(4, 4), v3(4.0, 3.0, 2.0));
    assert_eq!(fb.get_pixel(3, 4), V3::zero());
    render_pixel(&mut fb, &s, 1, AntialiasMethod::Normal, 0, 0);
    assert_eq!(fb.get_pixel(0, 0), v3(0.1, 0.1, 0.1));
    // nine rays into the background: nine times its colour
    let nine = 9 * fx(0.1);
    assert_eq!(sample_pixel(&s, 3, AntialiasMethod::Random, 0, 8), V3::new(nine, nine, nine));
}

#[test]
fn one_bounce_attenuates_the_background() {
    let grey = Arc::new(Material::Lambertian(Lambertian::new(solid(0.5, 0.25, 1.0))));
    let shapes = vec![Arc::new(Shape::Sphere(Sphere::new(v3(0.0, 0.0, -5.0), fx(1.0), grey)))];
    let s = scene(shapes, v3(0.5, 1.0, 0.25), 3, 9, 9);
    let samples = vec![up(); 3];
    // the ray hits the sphere head-on and is scattered straight back
    let c = ray_color_with(&s, HitRecord::new(down_z()), &samples);
    assert_eq!(c, v3(0.25, 0.25, 0.25));
}

#[test]
fn paths_end_at_the_recursion_depth() {
    let grey = Arc::new(Material::Lambertian(Lambertian::new(solid(0.5, 0.25, 1.0))));
    let shapes = vec![Arc::new(Shape::Sphere(Sphere::new(v3(0.0, 0.0, -5.0), fx(1.0), grey)))];
    let s = scene(shapes, v3(0.5, 1.0, 0.25), 1, 9, 9);
    // with a single level the bounced ray is cut off and brings back black
    let c = ray_color_with(&s, HitRecord::new(down_z()), &vec![up(); 1]);
    assert_eq!(c, V3::zero());
    // a record that is already at the depth brings back black at once
    let mut deep = HitRecord::new(down_z());
    deep.depth = 1;
    assert_eq!(ray_color(&s, deep), V3::zero());
    deep.depth = 7;
    assert_eq!(ray_color(&s, deep), V3::zero());
}

#[test]
fn a_mirrored_box_ends_in_black() {
    let mirror = Arc::new(Material::Metal(Metal::new(solid(1.0, 1.0, 1.0), 0)));
    let walls = vec![Arc::new(Shape::Cuboid(Cuboid::new(
        v3(-2.0, -2.0, -2.0),
        v3(2.0, 2.0, 2.0),
        mirror,
    )))];
    for depth in [1u16, 5, 200] {
        let s = scene(walls.clone(), v3(1.0, 1.0, 1.0), depth, 4, 4);
        for d in [v3(0.0, 0.0, -1.0), v3(0.3, 0.4, -1.0), v3(-1.0, 0.2, 0.1)] {
            let ray = Ray { origin: V3::zero(), direction: d };
            assert_eq!(ray_color(&s, HitRecord::new(ray)), V3::zero());
        }
        let mut fb = Framebuffer::new(4, 4);
        render_pixel(&mut fb, &s, 2, AntialiasMethod::Random, 1, 2);
        assert_eq!(fb.get_pixel(1, 2), V3::zero());
    }
}

#[test]
fn light_in_a_mirror() {
    // a mirror below, a light above: the ray goes down, is reflected and sees the light
    let mirror = Arc::new(Material::Metal(Metal::new(solid(0.5, 0.5, 0.5), 0)));
    let light = Arc::new(Material::DiffuseLight(DiffuseLight::new(solid(2.0, 4.0, 6.0))));
    let shapes = vec![
        Arc::new(Shape::Sphere(Sphere::new(v3(0.0, -5.0, 0.0), fx(1.0), mirror))),
        Arc::new(Shape::Sphere(Sphere::new(v3(0.0, 5.0, 0.0), fx(1.0), light))),
    ];
    let s = scene(shapes, V3::zero(), 3, 4, 4);
    let ray = Ray { origin: V3::zero(), direction: v3(0.0, -1.0, 0.0) };
    assert_eq!(ray_color(&s, HitRecord::new(ray)), v3(1.0, 2.0, 3.0));
    // with one level only the mirror's own colour is left, and a mirror has none
    let s1 = Scene { recursion_depth: 1, ..s };
    assert_eq!(ray_color(&s1, HitRecord::new(ray)), V3::zero());
}
