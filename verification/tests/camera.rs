use raytracer_lib::antialias::{antialias, antialias_with, sqrt_rays_per_pixel, AntialiasMethod};
use raytracer_lib::camera::{
    Camera, CameraBase, CameraOrientation, OrthographicCamera, PerspectiveCamera,
};
use raytracer_lib::math::V3;
use raytracer_lib::scalar::{Real, ONE};

fn fx(x: f64) -> Real {
    (x * 1048576.0).round() as Real
}

fn v3(x: f64, y: f64, z: f64) -> V3 {
    V3::new(fx(x), fx(y), fx(z))
}

#[test]
fn camera_base_spans_half_a_unit() {
    let b = CameraBase::new(v3(0.0, 0.0, 0.0), &v3(0.0, 0.0, -1.0), fx(2.0));
    assert_eq!(b.left, fx(-0.25));
    assert_eq!(b.right, fx(0.25));
    assert_eq!(b.top, fx(0.125));
    assert_eq!(b.bottom, fx(-0.125));
    assert_eq!(b.pixels_x, 0);
    assert_eq!(b.pixels_y, 0);
    assert_eq!(b.basis.w, v3(0.0, 0.0, 1.0));
}

#[test]
fn image_plane_coordinates() {
    let mut c = Camera::Perspective(PerspectiveCamera::new(
        V3::zero(),
        &v3(0.0, 0.0, -1.0),
        fx(1.0),
        fx(1.0),
    ));
    c.set_image_pixels(100, 50);
    let b = c.camera_base();
    assert_eq!((b.pixels_x, b.pixels_y), (100, 50));
    assert_eq!(b.get_uv(50, 25, 0, 0), (0, 0));
    assert_eq!(b.get_uv(0, 0, 0, 0), (fx(-0.25), fx(-0.25)));
    assert_eq!(b.get_uv(100, 50, 0, 0), (fx(0.25), fx(0.25)));
    assert_eq!(b.get_uv(25, 0, 0, 0), (fx(-0.125), fx(-0.25)));
    // half a pixel of a hundred across half a unit: 0.0025, rounded down
    assert_eq!(b.get_uv(0, 0, fx(0.5), 0).0, fx(-0.25) + 2621);
}

#[test]
fn perspective_rays_leave_from_the_position() {
    let mut c = Camera::Perspective(PerspectiveCamera::new(
        v3(1.0, 2.0, 3.0),
        &v3(0.0, 0.0, -1.0),
        fx(1.0),
        fx(2.0),
    ));
    c.set_image_pixels(100, 100);
    let r = c.generate_ray_with(50, 50, 0, 0, (fx(0.5), fx(0.5)));
    assert_eq!(r.origin, v3(1.0, 2.0, 3.0));
    assert_eq!(r.direction, v3(0.0, 0.0, -2.0));
    let r = c.generate_ray_with(100, 0, 0, 0, (0, 0));
    assert_eq!(r.direction, v3(0.25, -0.25, -2.0));
    let r = c.generate_ray(75, 50, 0, 0);
    assert_eq!(r.origin, v3(1.0, 2.0, 3.0));
    assert_eq!(r.direction, v3(0.125, 0.0, -2.0));
}

#[test]
fn perspective_lens_keeps_the_focus_point() {
    let mut c = Camera::Perspective(PerspectiveCamera::with_lens(
        V3::zero(),
        &v3(0.0, 0.0, -1.0),
        fx(1.0),
        fx(4.0),
        fx(0.5),
    ));
    c.set_image_pixels(100, 100);
    let r = c.generate_ray_with(50, 50, 0, 0, (fx(0.5), fx(-1.0)));
    assert_eq!(r.origin, v3(0.25, -0.5, 0.0));
    assert_eq!(r.direction, v3(-0.25, 0.5, -4.0));
    assert_eq!(r.point_at(ONE), v3(0.0, 0.0, -4.0));
    for _ in 0..50 {
        let r = c.generate_ray(50, 50, 0, 0);
        assert_eq!(r.point_at(ONE), v3(0.0, 0.0, -4.0));
        assert!(r.origin.x.abs() <= fx(0.5) && r.origin.y.abs() <= fx(0.5));
        assert_eq!(r.origin.z, 0);
    }
}

#[test]
fn orthographic_rays_are_parallel() {
    let mut c = Camera::Orthographic(OrthographicCamera::new(
        v3(0.0, 0.0, 5.0),
        &v3(0.0, 0.0, -3.0),
        fx(1.0),
    ));
    c.set_image_pixels(10, 10);
    let a = c.generate_ray(0, 0, 0, 0);
    let b = c.generate_ray(10, 5, 0, 0);
    assert_eq!(a.direction, v3(0.0, 0.0, -1.0));
    assert_eq!(b.direction, v3(0.0, 0.0, -1.0));
    assert_eq!(a.origin, v3(-0.25, -0.25, 5.0));
    assert_eq!(b.origin, v3(0.25, 0.0, 5.0));
}

#[test]
fn view_direction_from_orientation() {
    let p = v3(1.0, 1.0, 1.0);
    let d = CameraOrientation::ViewDir { view_dir: v3(0.0, 0.0, -1.0) };
    assert_eq!(d.get_view_direction(p), v3(0.0, 0.0, -1.0));
    let l = CameraOrientation::LookAtPoint { lookat_point: v3(3.0, 1.0, -4.0) };
    assert_eq!(l.get_view_direction(p), v3(2.0, 0.0, -5.0));
}

#[test]
fn normal_antialiasing_takes_cell_centres() {
    assert_eq!(antialias_with(AntialiasMethod::Normal, 2, 0, 1, 0, 0), (fx(0.25), fx(0.75)));
    assert_eq!(antialias_with(AntialiasMethod::Normal, 1, 0, 0, 7, 9), (fx(0.5), fx(0.5)));
    assert_eq!(antialias(AntialiasMethod::Normal, 4, 3, 0), (fx(0.875), fx(0.125)));
}

#[test]
fn jittered_antialiasing_stays_in_the_cell() {
    assert_eq!(
        antialias_with(AntialiasMethod::Jittered, 4, 1, 3, fx(0.25), fx(0.5)),
        (fx(0.3125), fx(0.875))
    );
    let mut seen = std::collections::BTreeSet::new();
    for _ in 0..100 {
        let (di, dj) = antialias(AntialiasMethod::Jittered, 4, 1, 3);
        assert!(fx(0.25) <= di && di < fx(0.5), "{}", di);
        assert!(fx(0.75) <= dj && dj < ONE, "{}", dj);
        seen.insert(di);
    }
    assert!(seen.len() > 1);
}

#[test]
fn random_antialiasing_ignores_the_cell() {
    assert_eq!(antialias_with(AntialiasMethod::Random, 4, 1, 3, fx(0.9), fx(0.1)), (fx(0.9), fx(0.1)));
    let mut low = false;
    let mut high = false;
    for _ in 0..200 {
        let (di, dj) = antialias(AntialiasMethod::Random, 4, 3, 3);
        assert!(0 <= di && di < ONE);
        assert!(0 <= dj && dj < ONE);
        low = low || di < fx(0.75);
        high = high || di >= fx(0.75);
    }
    assert!(low && high);
}

#[test]
fn rays_per_pixel_must_be_a_square() {
    assert_eq!(sqrt_rays_per_pixel(4), Some(2));
    assert_eq!(sqrt_rays_per_pixel(1), Some(1));
    assert_eq!(sqrt_rays_per_pixel(0), Some(0));
    assert_eq!(sqrt_rays_per_pixel(65025), Some(255));
    assert_eq!(sqrt_rays_per_pixel(5), None);
    assert_eq!(sqrt_rays_per_pixel(65535), None);
    assert_eq!(sqrt_rays_per_pixel(2), None);
}

#[test]
fn antialias_methods_by_name() {
    assert_eq!(AntialiasMethod::from_name("normal"), Some(AntialiasMethod::Normal));
    assert_eq!(AntialiasMethod::from_name("Jittered"), Some(AntialiasMethod::Jittered));
    assert_eq!(AntialiasMethod::from_name("RANDOM"), Some(AntialiasMethod::Random));
    assert_eq!(AntialiasMethod::from_name("rAnDoM"), Some(AntialiasMethod::Random));
    assert_eq!(AntialiasMethod::from_name(""), None);
    assert_eq!(AntialiasMethod::from_name("norma"), None);
    assert_eq!(AntialiasMethod::from_name("normal "), None);
    assert_eq!(AntialiasMethod::from_name("stratified"), None);
    assert_eq!(AntialiasMethod::from_name("n\u{4f}rmal"), Some(AntialiasMethod::Normal));
    assert_eq!(AntialiasMethod::from_name("n\u{f6}rmal"), None);
    assert_eq!("normal".parse::<AntialiasMethod>(), Ok(AntialiasMethod::Normal));
    assert_eq!("Jittered".parse::<AntialiasMethod>(), Ok(AntialiasMethod::Jittered));
    assert_eq!("none".parse::<AntialiasMethod>(), Err(()));
}
