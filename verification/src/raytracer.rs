//! The light-transport integrator and the per-pixel sampling loop.

use vstd::prelude::*;

use crate::camera::{camera_time0, camera_time1, camera_wf, ray_through_s, Camera};
use crate::color::{black, black_s, get_color, get_color_s};
use crate::fixed::{fx_add, fx_add_s, fx_div, fx_div_s, FX_MAX, FX_ONE};
use crate::color::color_in_range_s;
use crate::material::{
    attenuate_s, lemma_attenuate_in_range, material_albedo_in_range_s, scatter_rel, Material,
};
use crate::objects::{
    hittable_hit_s, hittable_material_s, lemma_hittable_hit_material, lemma_scene_hit_in_range,
    lemma_scene_hit_reports_primitive, scene_hit_s, Hittable, Hittables,
};
use crate::ray::{background_s, lemma_background_on_segment, Ray};
use crate::rng::Prng;
use crate::vec3::{bounded_s, in_unit_disk_s, vadd_s, Vec3};

verus! {

/// Lower intersection bound of every integrator query: keeps a scattered
/// ray from immediately re-hitting its own origin (shadow acne). One
/// thousandth, rounded to the fixed-point grid.
pub const T_EPS: i64 = 66;

/// Upper intersection bound: the largest representable parameter.
pub const T_FAR: i64 = FX_MAX;

/// Everything a render needs: image geometry, sampling budget, the scene
/// and the camera.
pub struct ImageConfig {
    pub aspect_ratio: i64,
    pub image_width: i64,
    pub image_height: i64,
    pub samples_per_pixel: i64,
    pub max_depth: i64,
    pub world: Hittables,
    pub camera: Camera,
}

/// The colors the recursive estimator may return for a ray at a given
/// depth, over all generator outcomes: black when the bounce budget is
/// exhausted; exactly the background when the scene is missed; on a hit,
/// either black for an absorbed metal reflection, or the hit material's
/// attenuation of a color this relation admits one bounce deeper for a
/// scattered ray the material admits.
#[verifier::opaque]
pub open spec fn ray_color_rel(world: Seq<Hittable>, r: Ray, depth: int, c: Vec3) -> bool
    decreases depth,
{
    if depth <= 0 {
        c == black_s()
    } else {
        match scene_hit_s(world, r, T_EPS as int, T_FAR as int) {
            None => c == background_s(r),
            Some(h) => (c == black_s() && h.material matches Material::Metal { albedo, fuzz })
                || exists|sr: Ray, inner: Vec3|
                #[trigger] scatter_rel(h.material, r, h, sr) && ray_color_rel(
                    world,
                    sr,
                    depth - 1,
                    inner,
                ) && c == #[trigger] attenuate_s(h.material, inner),
        }
    }
}

/// Resolve a ray to a radiance estimate by bouncing it through the scene:
/// the result is a color the integrator relation admits for this ray at
/// this depth.
pub fn ray_color(ray: Ray, world: &Hittables, rng: &mut Prng, depth: i64) -> (color: Vec3)
    requires
        bounded_s(ray.direction),
    ensures
        ray_color_rel(world.hittables@, ray, depth as int, color),
        depth <= 0 ==> color == black_s(),
        depth > 0 && scene_hit_s(world.hittables@, ray, T_EPS as int, T_FAR as int) is None
            ==> color == background_s(ray),
    decreases depth,
{
    if depth <= 0 {
        let c = black();
        proof {
            reveal(ray_color_rel);
            assert(ray_color_rel(world.hittables@, ray, depth as int, c));
        }
        c
    } else {
        let found = world.hit(&ray, T_EPS, T_FAR);
        proof {
            lemma_scene_hit_in_range(world.hittables@, ray, T_EPS as int, T_FAR as int);
        }
        if let Some(hit) = found {
            if let Some(scattered) = hit.material.scatter(&ray, &hit, rng) {
                let inner = ray_color(scattered, world, rng, depth - 1);
                let color = hit.material.attenuate(inner);
                proof {
                    reveal(ray_color_rel);
                    assert(scatter_rel(hit.material, ray, hit, scattered) && ray_color_rel(
                        world.hittables@,
                        scattered,
                        depth - 1,
                        inner,
                    ) && color == attenuate_s(hit.material, inner));
                    assert(ray_color_rel(world.hittables@, ray, depth as int, color));
                }
                color
            } else {
                let c = black();
                proof {
                    reveal(ray_color_rel);
                    assert(hit.material matches Material::Metal { albedo, fuzz });
                    assert(ray_color_rel(world.hittables@, ray, depth as int, c));
                }
                c
            }
        } else {
            let c = ray.color();
            proof {
                reveal(ray_color_rel);
                assert(ray_color_rel(world.hittables@, ray, depth as int, c));
            }
            c
        }
    }
}

/// The normalized image coordinate of pixel position `p` jittered by `jit`,
/// over an image extent of `extent` pixels.
pub open spec fn jittered_coord_s(p: int, jit: int, extent: int) -> int {
    fx_div_s(fx_add_s(p * (FX_ONE as int), jit), (extent - 1) * (FX_ONE as int))
}

/// One admissible camera ray for pixel `(i, j)`: its image coordinates are
/// the pixel position jittered by two draws from [0, 1) and normalized by
/// the image extents, its lens offset comes from a unit-disk draw, and its
/// time respects the camera's shutter interval.
#[verifier::opaque]
pub open spec fn pixel_ray_s(conf: ImageConfig, i: int, j: int, r: Ray) -> bool {
    exists|ju: int, jv: int, d: Vec3|
        {
            &&& 0 <= ju < FX_ONE as int
            &&& 0 <= jv < FX_ONE as int
            &&& in_unit_disk_s(d)
            &&& r == #[trigger] ray_through_s(
                conf.camera,
                #[trigger] jittered_coord_s(i, ju, conf.image_width as int),
                #[trigger] jittered_coord_s(j, jv, conf.image_height as int),
                d,
                r.time as int,
            )
            &&& (camera_time0(conf.camera) == camera_time1(conf.camera) ==> r.time == 0)
            &&& (camera_time0(conf.camera) != camera_time1(conf.camera) ==> camera_time0(
                conf.camera,
            ) <= r.time as int && (r.time as int) < camera_time1(conf.camera))
        }
}

/// The accumulated color of pixel `(i, j)` after `n` samples: a sum of
/// per-sample colors, each admitted by the integrator for an admissible
/// camera ray of that pixel.
#[verifier::opaque]
pub open spec fn pixel_sum_s(conf: ImageConfig, i: int, j: int, n: int, c: Vec3) -> bool
    decreases n,
{
    if n <= 0 {
        c == black_s()
    } else {
        exists|prev: Vec3, r: Ray, sample: Vec3|
            pixel_sum_s(conf, i, j, n - 1, prev) && #[trigger] pixel_ray_s(conf, i, j, r) && ray_color_rel(
                conf.world.hittables@,
                r,
                conf.max_depth as int,
                sample,
            ) && c == #[trigger] vadd_s(prev, sample)
    }
}

/// Extending a pixel's accumulated color by one admitted sample.
proof fn lemma_pixel_sum_extend(conf: &ImageConfig, i: int, j: int, n: int, prev: Vec3, r: Ray, sample: Vec3)
    requires
        n >= 0,
        pixel_sum_s(*conf, i, j, n, prev),
        pixel_ray_s(*conf, i, j, r),
        ray_color_rel(conf.world.hittables@, r, conf.max_depth as int, sample),
    ensures
        pixel_sum_s(*conf, i, j, n + 1, vadd_s(prev, sample)),
{
    reveal(pixel_sum_s);
    let c = vadd_s(prev, sample);
    assert(exists|prev2: Vec3, r2: Ray, sample2: Vec3|
        pixel_sum_s(*conf, i, j, n, prev2) && #[trigger] pixel_ray_s(*conf, i, j, r2)
            && ray_color_rel(conf.world.hittables@, r2, conf.max_depth as int, sample2) && c
            == #[trigger] vadd_s(prev2, sample2));
}

/// Every albedo in the scene lies in the unit cube.
pub open spec fn scene_albedos_in_range_s(objs: Seq<Hittable>) -> bool {
    forall|k: int|
        0 <= k < objs.len() ==> #[trigger] material_albedo_in_range_s(hittable_material_s(objs[k]))
}

/// Under unit-cube albedos every color the integrator relation admits lies
/// in the unit cube: black and the background do, and each bounce
/// attenuates an admitted deeper color by an in-range albedo.
pub proof fn lemma_ray_color_in_range(world: Seq<Hittable>, r: Ray, depth: int, c: Vec3)
    requires
        ray_color_rel(world, r, depth, c),
        bounded_s(r.direction),
        scene_albedos_in_range_s(world),
    ensures
        color_in_range_s(c),
    decreases depth,
{
    reveal(ray_color_rel);
    if depth <= 0 {
    } else {
        match scene_hit_s(world, r, T_EPS as int, T_FAR as int) {
            None => {
                lemma_background_on_segment(r);
            },
            Some(h) => {
                if c == black_s() {
                } else {
                    let (sr, inner) = choose|sr: Ray, inner: Vec3|
                        #[trigger] scatter_rel(h.material, r, h, sr) && ray_color_rel(
                            world,
                            sr,
                            depth - 1,
                            inner,
                        ) && c == #[trigger] attenuate_s(h.material, inner);
                    lemma_ray_color_in_range(world, sr, depth - 1, inner);
                    lemma_scene_hit_reports_primitive(world, r, T_EPS as int, T_FAR as int);
                    let (k, tm) = choose|k: int, tm: int|
                        0 <= k < world.len() && hittable_hit_s(world[k], r, T_EPS as int, tm)
                            == Some(h);
                    lemma_hittable_hit_material(world[k], r, T_EPS as int, tm);
                    assert(material_albedo_in_range_s(h.material));
                    lemma_attenuate_in_range(h.material, inner);
                }
            },
        }
    }
}

/// The buffer position of pixel `(i, j)`: rows are emitted from the top
/// (world row `height - 1`) downward, columns left to right.
pub open spec fn pixel_index_s(conf: ImageConfig, i: int, j: int) -> int {
    (conf.image_height - 1 - j) * conf.image_width + i
}

/// The buffer entry at pixel `(i, j)`'s position is the tone map of an
/// accumulated color the per-pixel sampling relation admits.
pub open spec fn pixel_entry_ok_s(
    conf: ImageConfig,
    pixels: Seq<(u8, u8, u8)>,
    pi: int,
    pj: int,
) -> bool {
    exists|c: Vec3|
        pixel_sum_s(conf, pi, pj, conf.samples_per_pixel as int, c) && pixels[pixel_index_s(
            conf,
            pi,
            pj,
        )] == get_color_s(c, conf.samples_per_pixel as int)
}

/// The part of the buffer written so far: every row strictly above row `j`
/// is complete, and row `j` is filled up to column `i`.
pub open spec fn pixels_done_s(
    conf: ImageConfig,
    pixels: Seq<(u8, u8, u8)>,
    j: int,
    i: int,
) -> bool {
    &&& pixels.len() == pixel_index_s(conf, i, j)
    &&& forall|pi: int, pj: int|
        0 <= pi < conf.image_width && j < pj < conf.image_height ==> #[trigger] pixel_entry_ok_s(
            conf,
            pixels,
            pi,
            pj,
        )
    &&& forall|pi: int|
        0 <= pi < i ==> #[trigger] pixel_entry_ok_s(conf, pixels, pi, j)
}

/// An entry of the written part survives appending one more entry.
proof fn lemma_entry_ok_push(
    conf: ImageConfig,
    pixels: Seq<(u8, u8, u8)>,
    entry: (u8, u8, u8),
    pi: int,
    pj: int,
)
    requires
        pixel_entry_ok_s(conf, pixels, pi, pj),
        0 <= pixel_index_s(conf, pi, pj) < pixels.len(),
    ensures
        pixel_entry_ok_s(conf, pixels.push(entry), pi, pj),
{
    let c = choose|c: Vec3|
        pixel_sum_s(conf, pi, pj, conf.samples_per_pixel as int, c) && pixels[pixel_index_s(
            conf,
            pi,
            pj,
        )] == get_color_s(c, conf.samples_per_pixel as int);
    assert(pixels.push(entry)[pixel_index_s(conf, pi, pj)] == pixels[pixel_index_s(conf, pi, pj)]);
    assert(pixel_sum_s(conf, pi, pj, conf.samples_per_pixel as int, c) && pixels.push(entry)[
    pixel_index_s(conf, pi, pj)] == get_color_s(c, conf.samples_per_pixel as int));
}

/// Appending the tone-mapped entry of pixel `(i, j)` advances the written
/// part by one column.
proof fn lemma_pixels_done_push(
    conf: ImageConfig,
    pixels: Seq<(u8, u8, u8)>,
    entry: (u8, u8, u8),
    j: int,
    i: int,
    c: Vec3,
)
    requires
        0 < conf.image_width,
        0 <= j < conf.image_height,
        0 <= i < conf.image_width,
        pixels_done_s(conf, pixels, j, i),
        pixel_sum_s(conf, i, j, conf.samples_per_pixel as int, c),
        entry == get_color_s(c, conf.samples_per_pixel as int),
    ensures
        pixels_done_s(conf, pixels.push(entry), j, i + 1),
{
    let w = conf.image_width as int;
    let h = conf.image_height as int;
    let new_pixels = pixels.push(entry);
    assert(new_pixels.len() == pixel_index_s(conf, i + 1, j));
    assert forall|pi: int, pj: int|
        0 <= pi < conf.image_width && j < pj < conf.image_height implies #[trigger] pixel_entry_ok_s(
        conf,
        new_pixels,
        pi,
        pj,
    ) by {
        assert(0 <= (h - 1 - pj) * w + pi && (h - 1 - pj) * w + pi < (h - 1 - j) * w + i)
            by (nonlinear_arith)
            requires
                0 <= pi < w,
                j < pj < h,
                0 <= j,
                0 <= i,
                0 < w;
        lemma_entry_ok_push(conf, pixels, entry, pi, pj);
    }
    assert forall|pi: int| 0 <= pi < i + 1 implies #[trigger] pixel_entry_ok_s(
        conf,
        new_pixels,
        pi,
        j,
    ) by {
        if pi < i {
            assert(0 <= (h - 1 - j) * w + pi && (h - 1 - j) * w + pi < (h - 1 - j) * w + i)
                by (nonlinear_arith)
                requires
                    0 <= pi < i,
                    0 <= (h - 1 - j),
                    0 < w;
            lemma_entry_ok_push(conf, pixels, entry, pi, j);
        } else {
            assert(new_pixels[pixel_index_s(conf, i, j)] == entry);
            assert(pixel_sum_s(conf, i, j, conf.samples_per_pixel as int, c) && new_pixels[
            pixel_index_s(conf, i, j)] == get_color_s(c, conf.samples_per_pixel as int));
        }
    }
}

/// A completed row extends the fully written rows by one.
proof fn lemma_pixels_done_row(conf: ImageConfig, pixels: Seq<(u8, u8, u8)>, j: int)
    requires
        0 < conf.image_width,
        0 <= j < conf.image_height,
        pixels_done_s(conf, pixels, j, conf.image_width as int),
    ensures
        pixels_done_s(conf, pixels, j - 1, 0),
{
    let w = conf.image_width as int;
    let h = conf.image_height as int;
    assert((h - 1 - j) * w + w == (h - 1 - (j - 1)) * w) by (nonlinear_arith);
    assert(pixels.len() == pixel_index_s(conf, 0, j - 1));
    assert forall|pi: int, pj: int|
        0 <= pi < conf.image_width && j - 1 < pj < conf.image_height implies #[trigger] pixel_entry_ok_s(
        conf,
        pixels,
        pi,
        pj,
    ) by {
        if pj == j {
            assert(pixel_entry_ok_s(conf, pixels, pi, j));
        }
    }
}

/// One pixel of the image: the integrator is averaged over jittered camera
/// samples, and the sum is admitted by the per-pixel sampling relation.
fn render_pixel(conf: &ImageConfig, i: i64, j: i64, rng: &mut Prng) -> (entry: (u8, u8, u8))
    requires
        1 <= conf.image_width <= 0x10000,
        1 <= conf.image_height <= 0x10000,
        1 <= conf.samples_per_pixel <= 0x40000000,
        camera_wf(conf.camera),
        0 <= i < conf.image_width,
        0 <= j < conf.image_height,
    ensures
        exists|c: Vec3|
            #[trigger] pixel_sum_s(*conf, i as int, j as int, conf.samples_per_pixel as int, c)
                && entry == get_color_s(c, conf.samples_per_pixel as int),
{
    let mut pixel_color = black();
    let mut s: i64 = 0;
    proof {
        reveal(pixel_sum_s);
        assert(pixel_sum_s(*conf, i as int, j as int, 0, pixel_color));
    }
    while s < conf.samples_per_pixel
        invariant
            0 <= s <= conf.samples_per_pixel,
            1 <= conf.image_width <= 0x10000,
            1 <= conf.image_height <= 0x10000,
            1 <= conf.samples_per_pixel <= 0x40000000,
            camera_wf(conf.camera),
            0 <= i < conf.image_width,
            0 <= j < conf.image_height,
            pixel_sum_s(*conf, i as int, j as int, s as int, pixel_color),
        decreases conf.samples_per_pixel - s,
    {
        let ju: i64 = rng.next_in(0, FX_ONE);
        let jv: i64 = rng.next_in(0, FX_ONE);
        let u: i64 = fx_div(fx_add(i * FX_ONE, ju), (conf.image_width - 1) * FX_ONE);
        let v: i64 = fx_div(fx_add(j * FX_ONE, jv), (conf.image_height - 1) * FX_ONE);
        // Vector from origin to pixel.
        let ray = conf.camera.get_ray(u, v, rng);
        let sample = ray_color(ray, &conf.world, rng, conf.max_depth);
        let next_color = pixel_color.add(sample);
        proof {
            let d = choose|d: Vec3|
                in_unit_disk_s(d) && ray == ray_through_s(
                    conf.camera,
                    u as int,
                    v as int,
                    d,
                    ray.time as int,
                );
            assert(0 <= ju as int && (ju as int) < FX_ONE as int && 0 <= jv as int && (
            jv as int) < FX_ONE as int && in_unit_disk_s(d) && ray == ray_through_s(
                conf.camera,
                jittered_coord_s(i as int, ju as int, conf.image_width as int),
                jittered_coord_s(j as int, jv as int, conf.image_height as int),
                d,
                ray.time as int,
            ));
            reveal(pixel_ray_s);
            assert(pixel_ray_s(*conf, i as int, j as int, ray));
            lemma_pixel_sum_extend(conf, i as int, j as int, s as int, pixel_color, ray, sample);
        }
        pixel_color = next_color;
        s = s + 1;
    }
    get_color(pixel_color, conf.samples_per_pixel)
}

/// Render the configured image: for every pixel, top row first and left to
/// right within a row, average the integrator over jittered camera samples
/// and tone-map the sum. The buffer holds one triple per pixel; the triple
/// of pixel `(i, j)` sits at `pixel_index_s` and is the tone map of an
/// accumulated color the per-pixel sampling relation admits.
pub fn render(conf: ImageConfig, rng: &mut Prng) -> (pixels: Vec<(u8, u8, u8)>)
    requires
        1 <= conf.image_width <= 0x10000,
        1 <= conf.image_height <= 0x10000,
        1 <= conf.samples_per_pixel <= 0x40000000,
        camera_wf(conf.camera),
    ensures
        pixels@.len() == conf.image_width * conf.image_height,
        forall|pi: int, pj: int|
            0 <= pi < conf.image_width && 0 <= pj < conf.image_height ==> #[trigger] pixel_entry_ok_s(
                conf,
                pixels@,
                pi,
                pj,
            ),
{
    let mut pixels: Vec<(u8, u8, u8)> = Vec::new();
    let h: i64 = conf.image_height;
    let mut j: i64 = h;
    proof {
        assert((h - 1 - (h - 1)) * conf.image_width + 0 == 0) by (nonlinear_arith);
        assert(pixels@.len() == pixel_index_s(conf, 0, h as int - 1));
    }
    while j > 0
        invariant
            0 <= j <= h,
            1 <= conf.image_width <= 0x10000,
            1 <= conf.image_height <= 0x10000,
            1 <= conf.samples_per_pixel <= 0x40000000,
            camera_wf(conf.camera),
            h == conf.image_height,
            pixels_done_s(conf, pixels@, j - 1, 0),
        decreases j,
    {
        j = j - 1;
        let mut i: i64 = 0;
        while i < conf.image_width
            invariant
                0 <= i <= conf.image_width,
                0 <= j < h,
                1 <= conf.image_width <= 0x10000,
                1 <= conf.image_height <= 0x10000,
                1 <= conf.samples_per_pixel <= 0x40000000,
                camera_wf(conf.camera),
                h == conf.image_height,
                pixels_done_s(conf, pixels@, j as int, i as int),
            decreases conf.image_width - i,
        {
            let entry = render_pixel(&conf, i, j, rng);
            proof {
                let c = choose|c: Vec3|
                    #[trigger] pixel_sum_s(
                        conf,
                        i as int,
                        j as int,
                        conf.samples_per_pixel as int,
                        c,
                    ) && entry == get_color_s(c, conf.samples_per_pixel as int);
                lemma_pixels_done_push(conf, pixels@, entry, j as int, i as int, c);
            }
            pixels.push(entry);
            i = i + 1;
        }
        proof {
            lemma_pixels_done_row(conf, pixels@, j as int);
        }
    }
    proof {
        assert((h - 1 - (-1)) * conf.image_width + 0 == conf.image_width * h) by (nonlinear_arith);
        assert forall|pi: int, pj: int|
            0 <= pi < conf.image_width && 0 <= pj < conf.image_height implies #[trigger] pixel_entry_ok_s(
            conf,
            pixels@,
            pi,
            pj,
        ) by {
            assert(-1 < pj < conf.image_height);
        }
    }
    pixels
}

} // verus!
