//! The integrator: the colour that a ray brings back, and the pixels made
//! of such colours.
use crate::antialias::{antialias, is_fraction, spec_antialias, AntialiasMethod};
use crate::framebuffer::{
    is_sum_of, lemma_accumulation_is_local, lemma_sum_of_sums, spec_average, sum_of, ColorSum,
    Framebuffer,
};
use crate::geometry::bvh::scan;
use crate::geometry::laws::lemma_node_is_scan;
use crate::hit_record::HitRecord;
use crate::math::vector::{thread_rng, Color, V3};
use crate::sampling::{all_samples_wf, draw_samples, is_disk_sample, Sample};
use crate::scalar::{Real, INFINITY};
use crate::scene::Scene;
use vstd::prelude::*;

verus! {

/// No light at all.
pub open spec fn black() -> Color {
    V3 { x: 0, y: 0, z: 0 }
}

/// The colour that the ray of `hit` brings back, where the bounce at depth
/// `d` uses the random numbers `samples[d]`: black once the path has
/// bounced `recursion_depth` times; the background where the ray hits
/// nothing; else what the surface emits, plus, where it scatters the ray,
/// what the scattered ray brings back, attenuated channel by channel.
pub open spec fn spec_ray_color(scene: &Scene, hit: HitRecord, samples: Seq<Sample>) -> Color
    decreases scene.recursion_depth - hit.depth,
{
    if hit.depth >= scene.recursion_depth {
        black()
    } else {
        let found = scene.bvh.spec_closest_hit(hit);
        match found.hit_data {
            None => scene.background_color,
            Some(data) => {
                let at = HitRecord { t: found.t, hit_data: None, ..hit };
                let emitted = data.material.spec_emitted(data.uv);
                match data.material.spec_scatter(at, data, samples[hit.depth as int]) {
                    None => emitted,
                    Some((ray, attenuation)) => emitted.spec_plus(
                        attenuation.spec_component_mul(
                            spec_ray_color(scene, at.spec_bounce(ray), samples),
                        ),
                    ),
                }
            },
        }
    }
}

/// The colour that the ray of `hit` brings back, with `samples[d]` as the
/// random numbers of the bounce at depth `d`.
pub fn ray_color_with<'a>(scene: &'a Scene, hit: HitRecord<'a>, samples: &Vec<Sample>) -> (c:
    Color)
    requires
        scene.wf(),
        hit.wf(),
        samples@.len() >= scene.recursion_depth,
        all_samples_wf(samples@),
    ensures
        c == spec_ray_color(scene, hit, samples@),
        c.wf(),
    decreases scene.recursion_depth - hit.depth,
{
    if hit.depth >= scene.recursion_depth {
        return V3::zero();
    }
    let mut hit = hit;
    let hit_data = match scene.bvh.get_closest_hit_data(&mut hit) {
        Some(hit_data) => hit_data,
        None => {
            return scene.background_color;
        },
    };
    let sample = samples[hit.depth as usize];
    let color_emitted = hit_data.material.emitted(hit_data.uv, &hit.point());
    let (ray, attenuation) = match hit_data.material.scatter_with(&hit, &hit_data, &sample) {
        Some((r, a)) => (r, a),
        None => {
            return color_emitted;
        },
    };
    let color_scattered = attenuation.component_mul(
        &ray_color_with(scene, hit.bounce(ray), samples),
    );
    color_emitted.plus(&color_scattered)
}

/// The colour that the ray of `hit` brings back, with random numbers of the
/// calling thread's generator.
pub fn ray_color<'a>(scene: &'a Scene, hit: HitRecord<'a>) -> (c: Color)
    requires
        scene.wf(),
        hit.wf(),
    ensures
        c.wf(),
        exists|samples: Seq<Sample>|
            samples.len() == scene.recursion_depth && all_samples_wf(samples) && c
                == #[trigger] spec_ray_color(scene, hit, samples),
{
    let mut rng = thread_rng();
    let samples = draw_samples(&mut rng, scene.recursion_depth as usize);
    ray_color_with(scene, hit, &samples)
}

/// A path ends for want of depth: a ray that has already bounced as often
/// as the scene allows brings back black, whatever it would hit.
pub proof fn lemma_depth_ends_paths(scene: &Scene, hit: HitRecord, samples: Seq<Sample>)
    requires
        hit.depth >= scene.recursion_depth,
    ensures
        spec_ray_color(scene, hit, samples) == black(),
{
}

/// The path of the ray of `hit` never leaves the scene and never meets a
/// light: as long as it may bounce, the ray hits a surface that emits
/// nothing, and the same holds of the ray that the surface scatters. So it
/// is for every ray inside a closed box of mirrors.
pub open spec fn is_enclosed(scene: &Scene, hit: HitRecord, samples: Seq<Sample>) -> bool
    decreases scene.recursion_depth - hit.depth,
{
    if hit.depth >= scene.recursion_depth {
        true
    } else {
        let found = scene.bvh.spec_closest_hit(hit);
        match found.hit_data {
            None => false,
            Some(data) => {
                let at = HitRecord { t: found.t, hit_data: None, ..hit };
                &&& !(data.material is DiffuseLight)
                &&& match data.material.spec_scatter(at, data, samples[hit.depth as int]) {
                    None => true,
                    Some((ray, _)) => is_enclosed(scene, at.spec_bounce(ray), samples),
                }
            },
        }
    }
}

/// A path that never leaves the scene and never meets a light brings back
/// black: the chain of bounces is cut at the scene's depth, and nothing
/// along it adds any light. Nothing is tried beyond that depth.
pub proof fn lemma_enclosed_path_is_black(scene: &Scene, hit: HitRecord, samples: Seq<Sample>)
    requires
        is_enclosed(scene, hit, samples),
    ensures
        spec_ray_color(scene, hit, samples) == black(),
    decreases scene.recursion_depth - hit.depth,
{
    if hit.depth < scene.recursion_depth {
        let found = scene.bvh.spec_closest_hit(hit);
        let data = found.hit_data.unwrap();
        let at = HitRecord { t: found.t, hit_data: None, ..hit };
        match data.material.spec_scatter(at, data, samples[hit.depth as int]) {
            None => {},
            Some((ray, attenuation)) => {
                lemma_enclosed_path_is_black(scene, at.spec_bounce(ray), samples);
                assert(attenuation.x * 0 == 0 && attenuation.y * 0 == 0 && attenuation.z * 0 == 0)
                    by (nonlinear_arith);
                assert(attenuation.spec_component_mul(black()) == black());
            },
        }
    }
}

/// In a scene without shapes every ray that may still bounce brings back
/// the background, whatever the random numbers.
pub proof fn lemma_empty_scene_color(scene: &Scene, hit: HitRecord, samples: Seq<Sample>)
    requires
        scene.wf(),
        scene.is_empty(),
        hit.hit_data is None,
        hit.depth < scene.recursion_depth,
    ensures
        spec_ray_color(scene, hit, samples) == scene.background_color,
{
    lemma_node_is_scan(&scene.bvh.root, hit);
    assert(scan(scene.bvh.root.shapes_in_order(), 0, hit) == hit);
}

/// `n` times the colour `c`, channel by channel.
pub open spec fn spec_times(c: Color, n: int) -> ColorSum {
    ColorSum { r: c.x * n, g: c.y * n, b: c.z * n }
}

/// The colour of the ray through cell `(p, q)` of pixel `(i, j)`, for the
/// random fractions `u1` and `u2` of the antialiasing, the point `lens` of
/// the lens and the random numbers `samples` of the bounces.
pub open spec fn spec_cell_color(
    scene: &Scene,
    sqrt_rays_per_pixel: u16,
    antialias_method: AntialiasMethod,
    i: u32,
    j: u32,
    p: u16,
    q: u16,
    u1: Real,
    u2: Real,
    lens: (Real, Real),
    samples: Seq<Sample>,
) -> Color {
    let offset = spec_antialias(antialias_method, sqrt_rays_per_pixel, p, q, u1, u2);
    spec_ray_color(
        scene,
        HitRecord::spec_new(scene.camera.spec_generate_ray(i, j, offset.0, offset.1, lens)),
        samples,
    )
}

/// `color` is the colour of the ray through cell `(p, q)` of pixel
/// `(i, j)` for some random numbers.
pub open spec fn is_cell_color(
    scene: &Scene,
    sqrt_rays_per_pixel: u16,
    antialias_method: AntialiasMethod,
    i: u32,
    j: u32,
    p: u16,
    q: u16,
    color: Color,
) -> bool {
    exists|u1: Real, u2: Real, lens: (Real, Real), samples: Seq<Sample>|
        {
            &&& is_fraction(u1)
            &&& is_fraction(u2)
            &&& is_disk_sample(lens)
            &&& samples.len() == scene.recursion_depth
            &&& all_samples_wf(samples)
            &&& color == #[trigger] spec_cell_color(
                scene,
                sqrt_rays_per_pixel,
                antialias_method,
                i,
                j,
                p,
                q,
                u1,
                u2,
                lens,
                samples,
            )
        }
}

/// `colors` are the colours of the rays through the first `count` cells of
/// pixel `(i, j)`, row by row.
pub open spec fn is_cell_list(
    scene: &Scene,
    sqrt_rays_per_pixel: u16,
    antialias_method: AntialiasMethod,
    i: u32,
    j: u32,
    colors: Seq<Color>,
    count: int,
) -> bool {
    &&& colors.len() == count
    &&& forall|k: int|
        0 <= k < count ==> (#[trigger] colors[k]).wf() && is_cell_color(
            scene,
            sqrt_rays_per_pixel,
            antialias_method,
            i,
            j,
            (k / (sqrt_rays_per_pixel as int)) as u16,
            (k % (sqrt_rays_per_pixel as int)) as u16,
            colors[k],
        )
}

/// The sum of the first `n` of `colors`, channel by channel.
pub open spec fn spec_total(colors: Seq<Color>, n: int) -> ColorSum
    decreases n,
{
    if n <= 0 || n > colors.len() {
        ColorSum { r: 0, g: 0, b: 0 }
    } else {
        let rest = spec_total(colors, n - 1);
        ColorSum {
            r: rest.r + colors[n - 1].x,
            g: rest.g + colors[n - 1].y,
            b: rest.b + colors[n - 1].z,
        }
    }
}

/// `sum` is the sum of the colours of the rays through pixel `(i, j)`, one
/// for each cell of the grid, for some random numbers.
pub open spec fn is_pixel_sum(
    scene: &Scene,
    sqrt_rays_per_pixel: u16,
    antialias_method: AntialiasMethod,
    i: u32,
    j: u32,
    sum: V3,
) -> bool {
    exists|colors: Seq<Color>| #[trigger]
        is_cell_list(
            scene,
            sqrt_rays_per_pixel,
            antialias_method,
            i,
            j,
            colors,
            sqrt_rays_per_pixel * sqrt_rays_per_pixel,
        ) && sum_of(sum) == spec_total(colors, sqrt_rays_per_pixel * sqrt_rays_per_pixel)
}

/// The total of a list looks only at the colours it adds.
pub proof fn lemma_total_prefix(a: Seq<Color>, b: Seq<Color>, n: int)
    requires
        0 <= n <= a.len(),
        n <= b.len(),
        forall|k: int| 0 <= k < n ==> a[k] == b[k],
    ensures
        spec_total(a, n) == spec_total(b, n),
    decreases n,
{
    if n > 0 {
        lemma_total_prefix(a, b, n - 1);
    }
}

/// The total of colours within the saturation bounds is no larger than so
/// many of the largest.
pub proof fn lemma_total_bound(colors: Seq<Color>, n: int)
    requires
        0 <= n <= colors.len(),
        forall|k: int| 0 <= k < n ==> (#[trigger] colors[k]).wf(),
    ensures
        -n * INFINITY <= spec_total(colors, n).r <= n * INFINITY,
        -n * INFINITY <= spec_total(colors, n).g <= n * INFINITY,
        -n * INFINITY <= spec_total(colors, n).b <= n * INFINITY,
    decreases n,
{
    if n > 0 {
        lemma_total_bound(colors, n - 1);
        assert(colors[n - 1].wf());
        assert(-n * INFINITY == -(n - 1) * INFINITY - INFINITY) by (nonlinear_arith);
        assert(n * INFINITY == (n - 1) * INFINITY + INFINITY) by (nonlinear_arith);
    } else {
        assert(-n * INFINITY == 0 && n * INFINITY == 0) by (nonlinear_arith)
            requires
                n == 0,
        ;
    }
}

/// In a scene without shapes, where a path may bounce at all, the rays of a
/// pixel add up to so many times the background.
pub proof fn lemma_empty_scene_total(
    scene: &Scene,
    sqrt_rays_per_pixel: u16,
    antialias_method: AntialiasMethod,
    i: u32,
    j: u32,
    colors: Seq<Color>,
    count: int,
    n: int,
)
    requires
        scene.wf(),
        scene.is_empty(),
        scene.recursion_depth > 0,
        is_cell_list(scene, sqrt_rays_per_pixel, antialias_method, i, j, colors, count),
        0 <= n <= count,
    ensures
        spec_total(colors, n) == spec_times(scene.background_color, n),
    decreases n,
{
    let bg = scene.background_color;
    if n > 0 {
        lemma_empty_scene_total(
            scene,
            sqrt_rays_per_pixel,
            antialias_method,
            i,
            j,
            colors,
            count,
            n - 1,
        );
        let k = n - 1;
        let c = colors[k];
        assert(c.wf());
        let p = (k / (sqrt_rays_per_pixel as int)) as u16;
        let q = (k % (sqrt_rays_per_pixel as int)) as u16;
        assert(is_cell_color(scene, sqrt_rays_per_pixel, antialias_method, i, j, p, q, c));
        let (u1, u2, lens, samples) = choose|
            u1: Real,
            u2: Real,
            lens: (Real, Real),
            samples: Seq<Sample>,
        |
            {
                &&& is_fraction(u1)
                &&& is_fraction(u2)
                &&& is_disk_sample(lens)
                &&& samples.len() == scene.recursion_depth
                &&& all_samples_wf(samples)
                &&& c == #[trigger] spec_cell_color(
                    scene,
                    sqrt_rays_per_pixel,
                    antialias_method,
                    i,
                    j,
                    p,
                    q,
                    u1,
                    u2,
                    lens,
                    samples,
                )
            };
        let offset = spec_antialias(antialias_method, sqrt_rays_per_pixel, p, q, u1, u2);
        let hit = HitRecord::spec_new(
            scene.camera.spec_generate_ray(i, j, offset.0, offset.1, lens),
        );
        lemma_empty_scene_color(scene, hit, samples);
        assert(c == bg);
        assert(bg.x * n == bg.x * (n - 1) + bg.x) by (nonlinear_arith);
        assert(bg.y * n == bg.y * (n - 1) + bg.y) by (nonlinear_arith);
        assert(bg.z * n == bg.z * (n - 1) + bg.z) by (nonlinear_arith);
    } else {
        assert(bg.x * n == 0 && bg.y * n == 0 && bg.z * n == 0) by (nonlinear_arith)
            requires
                n == 0,
        ;
    }
}

/// The sum of the rays of a pixel is no larger than so many of the largest
/// colours.
pub proof fn lemma_pixel_sum_is_bounded(
    scene: &Scene,
    sqrt_rays_per_pixel: u16,
    antialias_method: AntialiasMethod,
    i: u32,
    j: u32,
    sum: V3,
)
    requires
        is_pixel_sum(scene, sqrt_rays_per_pixel, antialias_method, i, j, sum),
    ensures
        is_sum_of(sum, sqrt_rays_per_pixel * sqrt_rays_per_pixel),
{
    let rays: int = sqrt_rays_per_pixel * sqrt_rays_per_pixel;
    assert(rays >= 0) by (nonlinear_arith)
        requires
            rays == sqrt_rays_per_pixel * sqrt_rays_per_pixel,
    ;
    let colors = choose|colors: Seq<Color>| #[trigger]
        is_cell_list(scene, sqrt_rays_per_pixel, antialias_method, i, j, colors, rays) && sum_of(
            sum,
        ) == spec_total(colors, rays);
    lemma_total_bound(colors, rays);
}

/// In a scene without shapes every pixel adds up to so many times the
/// background, whatever the antialiasing method and the random numbers, as
/// long as a path may bounce at all.
pub proof fn lemma_empty_scene_pixel(
    scene: &Scene,
    sqrt_rays_per_pixel: u16,
    antialias_method: AntialiasMethod,
    i: u32,
    j: u32,
    sum: V3,
)
    requires
        scene.wf(),
        scene.is_empty(),
        scene.recursion_depth > 0,
        is_pixel_sum(scene, sqrt_rays_per_pixel, antialias_method, i, j, sum),
    ensures
        sum_of(sum) == spec_times(
            scene.background_color,
            sqrt_rays_per_pixel * sqrt_rays_per_pixel,
        ),
{
    let rays: int = sqrt_rays_per_pixel * sqrt_rays_per_pixel;
    assert(rays >= 0) by (nonlinear_arith)
        requires
            rays == sqrt_rays_per_pixel * sqrt_rays_per_pixel,
    ;
    let colors = choose|colors: Seq<Color>| #[trigger]
        is_cell_list(scene, sqrt_rays_per_pixel, antialias_method, i, j, colors, rays) && sum_of(
            sum,
        ) == spec_total(colors, rays);
    lemma_empty_scene_total(
        scene,
        sqrt_rays_per_pixel,
        antialias_method,
        i,
        j,
        colors,
        rays,
        rays,
    );
}

/// The colour of the ray through cell `(p, q)` of pixel `(i, j)`, with
/// random numbers of the calling thread's generator.
pub fn cell_color(
    scene: &Scene,
    sqrt_rays_per_pixel: u16,
    antialias_method: AntialiasMethod,
    i: u32,
    j: u32,
    p: u16,
    q: u16,
) -> (c: Color)
    requires
        scene.wf(),
        p < sqrt_rays_per_pixel,
        q < sqrt_rays_per_pixel,
    ensures
        c.wf(),
        is_cell_color(scene, sqrt_rays_per_pixel, antialias_method, i, j, p, q, c),
{
    let (di, dj) = antialias(antialias_method, sqrt_rays_per_pixel, p, q);
    let ray = scene.camera.generate_ray(i, j, di, dj);
    let hit = HitRecord::new(ray);
    let c = ray_color(scene, hit);
    proof {
        let (u1, u2) = choose|u1: Real, u2: Real|
            is_fraction(u1) && is_fraction(u2) && (di, dj) == #[trigger] spec_antialias(
                antialias_method,
                sqrt_rays_per_pixel,
                p,
                q,
                u1,
                u2,
            );
        let lens = choose|lens: (Real, Real)|
            is_disk_sample(lens) && ray == #[trigger] scene.camera.spec_generate_ray(
                i,
                j,
                di,
                dj,
                lens,
            );
        let samples = choose|samples: Seq<Sample>|
            samples.len() == scene.recursion_depth && all_samples_wf(samples) && c
                == #[trigger] spec_ray_color(scene, hit, samples);
        assert(c == spec_cell_color(
            scene,
            sqrt_rays_per_pixel,
            antialias_method,
            i,
            j,
            p,
            q,
            u1,
            u2,
            lens,
            samples,
        ));
    }
    c
}

/// The sum of the colours of the rays through pixel `(i, j)`: one for each
/// cell of a grid of `sqrt_rays_per_pixel` cells a side, row by row.
pub fn sample_pixel(
    scene: &Scene,
    sqrt_rays_per_pixel: u16,
    antialias_method: AntialiasMethod,
    i: u32,
    j: u32,
) -> (sum: V3)
    requires
        scene.wf(),
    ensures
        is_pixel_sum(scene, sqrt_rays_per_pixel, antialias_method, i, j, sum),
        is_sum_of(sum, sqrt_rays_per_pixel * sqrt_rays_per_pixel),
{
    let n = sqrt_rays_per_pixel;
    let mut sum = V3 { x: 0, y: 0, z: 0 };
    let ghost mut colors: Seq<Color> = Seq::empty();
    let mut p: u16 = 0;
    assert(is_sum_of(sum, 0));
    while p < n
        invariant
            p <= n,
            n == sqrt_rays_per_pixel,
            scene.wf(),
            is_cell_list(scene, n, antialias_method, i, j, colors, p * n),
            sum_of(sum) == spec_total(colors, p * n),
            is_sum_of(sum, p * n),
        decreases n - p,
    {
        let mut q: u16 = 0;
        while q < n
            invariant
                q <= n,
                p < n,
                n == sqrt_rays_per_pixel,
                scene.wf(),
                is_cell_list(scene, n, antialias_method, i, j, colors, p * n + q),
                sum_of(sum) == spec_total(colors, p * n + q),
                is_sum_of(sum, p * n + q),
            decreases n - q,
        {
            let color = cell_color(scene, n, antialias_method, i, j, p, q);
            proof {
                let done: int = p * n + q;
                assert(0 <= done && done + 1 <= 0xffff * 0xffff) by (nonlinear_arith)
                    requires
                        0 <= p < n,
                        0 <= q < n,
                        n <= 0xffff,
                        done == p * n + q,
                ;
                assert(is_sum_of(color, 1));
                lemma_sum_of_sums(sum, done, color, 1);
                let longer = colors.push(color);
                lemma_total_prefix(colors, longer, done);
                assert(done / (n as int) == p && done % (n as int) == q) by {
                    vstd::arithmetic::div_mod::lemma_fundamental_div_mod_converse(
                        done,
                        n as int,
                        p as int,
                        q as int,
                    );
                    assert(p * n == n * p) by (nonlinear_arith);
                }
                assert forall|k: int| 0 <= k < done + 1 implies (#[trigger] longer[k]).wf()
                    && is_cell_color(
                    scene,
                    n,
                    antialias_method,
                    i,
                    j,
                    (k / (n as int)) as u16,
                    (k % (n as int)) as u16,
                    longer[k],
                ) by {
                    if k < done {
                        assert(longer[k] == colors[k]);
                    }
                }
                colors = longer;
            }
            sum = V3 { x: sum.x + color.x, y: sum.y + color.y, z: sum.z + color.z };
            q += 1;
        }
        proof {
            assert(p * n + n == (p + 1) * n) by (nonlinear_arith);
        }
        p += 1;
    }
    sum
}

/// Renders pixel `(i, j)`: the colours of one ray for each cell of the
/// grid are added to what the framebuffer holds for the pixel.
pub fn render_pixel(
    fb: &mut Framebuffer,
    scene: &Scene,
    sqrt_rays_per_pixel: u16,
    antialias_method: AntialiasMethod,
    i: u32,
    j: u32,
)
    requires
        old(fb).wf(),
        scene.wf(),
        i < old(fb).width,
        j < old(fb).height,
        old(fb).samples@[old(fb)@.index(i as int, j as int)] + sqrt_rays_per_pixel
            * sqrt_rays_per_pixel <= u32::MAX,
    ensures
        final(fb).wf(),
        final(fb).width == old(fb).width,
        final(fb).height == old(fb).height,
        exists|sum: V3| #[trigger]
            is_pixel_sum(scene, sqrt_rays_per_pixel, antialias_method, i, j, sum) && final(fb)@
                == old(fb)@.add_samples(
                i as int,
                j as int,
                sum_of(sum),
                sqrt_rays_per_pixel * sqrt_rays_per_pixel,
            ),
{
    let sum = sample_pixel(scene, sqrt_rays_per_pixel, antialias_method, i, j);
    assert(sqrt_rays_per_pixel * sqrt_rays_per_pixel <= 0xffff * 0xffff) by (nonlinear_arith)
        requires
            0 <= sqrt_rays_per_pixel <= 0xffff,
    ;
    let samples: u32 = (sqrt_rays_per_pixel as u32) * (sqrt_rays_per_pixel as u32);
    fb.add_samples(i, j, sum, samples);
}

/// The mean of `n` times the same colour is that colour.
pub proof fn lemma_average_of_equals(c: Color, n: int)
    requires
        n > 0,
    ensures
        spec_average(spec_times(c, n), n) == c,
{
    vstd::arithmetic::div_mod::lemma_div_multiples_vanish(c.x as int, n);
    vstd::arithmetic::div_mod::lemma_div_multiples_vanish(c.y as int, n);
    vstd::arithmetic::div_mod::lemma_div_multiples_vanish(c.z as int, n);
    assert(c.x * n == n * c.x) by (nonlinear_arith);
    assert(c.y * n == n * c.y) by (nonlinear_arith);
    assert(c.z * n == n * c.z) by (nonlinear_arith);
}

/// The first `done` pixels of the buffer, row by row, hold the rays of a
/// finished pixel, one for each cell of the grid, and the others hold none.
pub open spec fn is_rendered_up_to(
    fb: &Framebuffer,
    scene: &Scene,
    sqrt_rays_per_pixel: u16,
    antialias_method: AntialiasMethod,
    done: int,
) -> bool {
    &&& forall|k: int|
        0 <= k < done ==> #[trigger] fb.samples@[k] == sqrt_rays_per_pixel * sqrt_rays_per_pixel
    &&& forall|k: int| done <= k < fb.samples@.len() ==> #[trigger] fb.samples@[k] == 0
    &&& forall|k: int| done <= k < fb.pixels@.len() ==> #[trigger] fb.pixels@[k] == black()
    &&& forall|k: int|
        0 <= k < done ==> is_pixel_sum(
            scene,
            sqrt_rays_per_pixel,
            antialias_method,
            (k % (fb.width as int)) as u32,
            (k / (fb.width as int)) as u32,
            #[trigger] fb.pixels@[k],
        )
}

/// Renders the whole image, pixel by pixel and row by row: every pixel of
/// the framebuffer that comes back holds the sum of one ray for each cell
/// of the grid. For a scene without shapes every pixel of the finished
/// image is the background, whatever the method, as long as a path may
/// bounce at all and the grid has a cell.
pub fn render(scene: &Scene, sqrt_rays_per_pixel: u16, antialias_method: AntialiasMethod) -> (fb:
    Framebuffer)
    requires
        scene.wf(),
        scene.image_width * scene.image_height <= usize::MAX,
    ensures
        fb.wf(),
        fb.width == scene.image_width,
        fb.height == scene.image_height,
        is_rendered_up_to(
            &fb,
            scene,
            sqrt_rays_per_pixel,
            antialias_method,
            scene.image_width * scene.image_height,
        ),
        scene.is_empty() && scene.recursion_depth > 0 && sqrt_rays_per_pixel > 0 ==> forall|k: int|
            0 <= k < scene.image_width * scene.image_height ==> #[trigger] fb@.averages()[k]
                == scene.background_color,
{
    let width = scene.image_width;
    let height = scene.image_height;
    let ghost rays: int = sqrt_rays_per_pixel * sqrt_rays_per_pixel;
    assert(0 <= rays <= 0xffff * 0xffff) by (nonlinear_arith)
        requires
            rays == sqrt_rays_per_pixel * sqrt_rays_per_pixel,
            0 <= sqrt_rays_per_pixel <= 0xffff,
    ;
    let mut fb = Framebuffer::new(width, height);
    let mut j: u32 = 0;
    while j < height
        invariant
            j <= height,
            width == scene.image_width,
            height == scene.image_height,
            rays == sqrt_rays_per_pixel * sqrt_rays_per_pixel,
            0 <= rays <= 0xffff * 0xffff,
            scene.wf(),
            fb.wf(),
            fb.width == width,
            fb.height == height,
            is_rendered_up_to(&fb, scene, sqrt_rays_per_pixel, antialias_method, j * width),
        decreases height - j,
    {
        let mut i: u32 = 0;
        while i < width
            invariant
                i <= width,
                j < height,
                width == scene.image_width,
                height == scene.image_height,
                rays == sqrt_rays_per_pixel * sqrt_rays_per_pixel,
                0 <= rays <= 0xffff * 0xffff,
                scene.wf(),
                fb.wf(),
                fb.width == width,
                fb.height == height,
                is_rendered_up_to(
                    &fb,
                    scene,
                    sqrt_rays_per_pixel,
                    antialias_method,
                    j * width + i,
                ),
            decreases width - i,
        {
            let ghost before = fb;
            let ghost idx: int = i + j * width;
            proof {
                assert(0 <= j * width && idx < width * height) by (nonlinear_arith)
                    requires
                        0 <= i < width,
                        0 <= j < height,
                        idx == i + j * width,
                ;
                assert(fb.samples@[idx] == 0);
            }
            render_pixel(&mut fb, scene, sqrt_rays_per_pixel, antialias_method, i, j);
            proof {
                let sum = choose|sum: V3| #[trigger]
                    is_pixel_sum(scene, sqrt_rays_per_pixel, antialias_method, i, j, sum) && fb@
                        == before@.add_samples(i as int, j as int, sum_of(sum), rays);
                lemma_accumulation_is_local(&before, &fb, i as int, j as int, sum, rays);
                assert(before.pixels@[idx] == black());
                assert(fb.pixels@[idx] == sum);
                assert(idx % (width as int) == i && idx / (width as int) == j) by {
                    vstd::arithmetic::div_mod::lemma_fundamental_div_mod_converse(
                        idx,
                        width as int,
                        j as int,
                        i as int,
                    );
                    assert(j * width == width * j) by (nonlinear_arith);
                }
            }
            i += 1;
        }
        proof {
            assert(j * width + width == (j + 1) * width) by (nonlinear_arith);
        }
        j += 1;
    }
    proof {
        assert(j * width == scene.image_width * scene.image_height) by (nonlinear_arith)
            requires
                j == scene.image_height,
                width == scene.image_width,
        ;
        let bg = scene.background_color;
        if scene.is_empty() && scene.recursion_depth > 0 && sqrt_rays_per_pixel > 0 {
            assert(rays > 0) by (nonlinear_arith)
                requires
                    rays == sqrt_rays_per_pixel * sqrt_rays_per_pixel,
                    sqrt_rays_per_pixel > 0,
            ;
            lemma_average_of_equals(bg, rays);
            assert forall|k: int| 0 <= k < width * height implies #[trigger] fb@.averages()[k]
                == bg by {
                let pixel = fb.pixels@[k];
                assert(fb.samples@[k] == rays);
                lemma_empty_scene_pixel(
                    scene,
                    sqrt_rays_per_pixel,
                    antialias_method,
                    (k % (width as int)) as u32,
                    (k / (width as int)) as u32,
                    pixel,
                );
            }
        }
    }
    fb
}

} // verus!
