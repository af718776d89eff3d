use raytracer_lib::framebuffer::Framebuffer;
use raytracer_lib::math::V3;
use raytracer_lib::scalar::Real;

fn fx(x: f64) -> Real {
    (x * 1048576.0).round() as Real
}

fn v3(x: f64, y: f64, z: f64) -> V3 {
    V3::new(fx(x), fx(y), fx(z))
}

#[test]
fn new_framebuffer_is_black() {
    let fb = Framebuffer::new(3, 2);
    assert_eq!(fb.dimensions(), (3, 2));
    assert_eq!(fb.pixels.len(), 6);
    assert_eq!(fb.samples, vec![0; 6]);
    assert_eq!(fb.get_pixels(), vec![V3::zero(); 6]);
    assert!(Framebuffer::new(0, 5).get_pixels().is_empty());
}

#[test]
fn pixels_are_indexed_row_by_row() {
    let fb = Framebuffer::new(3, 2);
    assert_eq!(fb.index(0, 0), 0);
    assert_eq!(fb.index(2, 0), 2);
    assert_eq!(fb.index(0, 1), 3);
    assert_eq!(fb.index(2, 1), 5);
}

#[test]
fn samples_are_averaged() {
    let mut fb = Framebuffer::new(2, 2);
    fb.add_samples(1, 0, v3(1.0, 2.0, 3.0), 2);
    fb.add_samples(1, 0, v3(1.0, 0.0, -1.0), 2);
    fb.add_samples(0, 1, v3(0.25, 0.5, 0.75), 1);
    assert_eq!(fb.samples, vec![0, 4, 1, 0]);
    let image = fb.get_pixels();
    assert_eq!(image[0], V3::zero());
    assert_eq!(image[1], v3(0.5, 0.5, 0.5));
    assert_eq!(image[2], v3(0.25, 0.5, 0.75));
    assert_eq!(image[3], V3::zero());
    assert_eq!(fb.get_pixel(1, 0), v3(0.5, 0.5, 0.5));
    assert_eq!(fb.get_pixel(1, 1), V3::zero());
}

#[test]
fn averages_round_down() {
    let mut fb = Framebuffer::new(1, 1);
    fb.add_samples(0, 0, V3::new(7, -7, 0), 2);
    assert_eq!(fb.get_pixel(0, 0), V3::new(3, -4, 0));
}

#[test]
fn sums_may_exceed_one_colour() {
    let mut fb = Framebuffer::new(1, 1);
    // a thousand samples of the brightest colour there is
    let bright = 1i64 << 30;
    fb.add_samples(0, 0, V3::new(1000 * bright, 0, -1000 * bright), 1000);
    assert_eq!(fb.get_pixel(0, 0), V3::new(bright, 0, -bright));
}

#[test]
fn accumulation_order_does_not_matter() {
    let calls: Vec<(u32, u32, V3, u32)> = vec![
        (0, 0, v3(0.1, 0.2, 0.3), 1),
        (1, 0, v3(0.5, 0.5, 0.5), 2),
        (0, 1, v3(0.9, 0.1, 0.4), 1),
        (1, 1, v3(0.3, 0.3, 0.3), 3),
        (0, 0, v3(0.7, 0.6, 0.5), 1),
        (1, 1, v3(0.2, 0.8, 0.1), 1),
    ];
    let mut forward = Framebuffer::new(2, 2);
    for (i, j, c, n) in calls.iter() {
        forward.add_samples(*i, *j, *c, *n);
    }
    let mut backward = Framebuffer::new(2, 2);
    for (i, j, c, n) in calls.iter().rev() {
        backward.add_samples(*i, *j, *c, *n);
    }
    let mut shuffled = Framebuffer::new(2, 2);
    for k in [3usize, 0, 5, 1, 4, 2] {
        let (i, j, c, n) = calls[k];
        shuffled.add_samples(i, j, c, n);
    }
    assert_eq!(forward.get_pixels(), backward.get_pixels());
    assert_eq!(forward.get_pixels(), shuffled.get_pixels());
    assert_eq!(forward.pixels, shuffled.pixels);
    assert_eq!(forward.samples, backward.samples);
    assert_eq!(forward.get_pixel(0, 0), V3::new(fx(0.1) + fx(0.7), fx(0.2) + fx(0.6), fx(0.8)).scale(fx(0.5)));
}

#[test]
fn workers_on_disjoint_pixels_match_a_sequential_run() {
    let width = 8u32;
    let height = 8u32;
    let color = |i: u32, j: u32| V3::new((i * 1000 + j) as i64, (j * 77) as i64, 5);
    let mut sequential = Framebuffer::new(width, height);
    for j in 0..height {
        for i in 0..width {
            sequential.add_samples(i, j, color(i, j), 1 + (i + j) % 3);
        }
    }
    // four workers, each with every fourth pixel, taking turns in an order of their own
    let mut interleaved = Framebuffer::new(width, height);
    for step in 0..16u32 {
        for w in [2u32, 0, 3, 1] {
            let k = (15 - step) * 4 + w;
            let (i, j) = (k % width, k / width);
            interleaved.add_samples(i, j, color(i, j), 1 + (i + j) % 3);
        }
    }
    assert_eq!(interleaved.get_pixels(), sequential.get_pixels());
    assert_eq!(interleaved.samples, sequential.samples);
}
