//! The tiled sampler: per-pixel stochastic sampling, fixed-size tiles that
//! partition the image, and the purely structural reassembly of tiles into
//! the frame buffer.  Every pixel is tied to the draws that produced it:
//! whatever the generator returns, the pixel is the average of its samples'
//! possible radiances, and stays in [0, 1] on well-formed scenes.  On
//! deterministic configurations (a fuzz-free metal scene, a closed lens,
//! centered jitter) every pixel is pinned exactly, so rendering is provably
//! idempotent and independent of the tiling.

use vstd::prelude::*;

verus! {

use crate::fx::{Fx, SCALE, sat, fadd, fdiv, fxr, lemma_avg_unit};
use crate::math::{
    Color, Vec3, spec_vec3, spec_add3, spec_div3, spec_len_sq, spec_unit_draw, random_float,
};
use crate::trace::{
    Camera, HittableCollection, spec_collection_det, spec_ray_color_det, spec_get_ray,
    spec_black, spec_possible_ray_color, spec_collection_unit_albedos, spec_unit_color,
    get_ray_color, black, HALF_RAW,
};
use vstd::arithmetic::div_mod::{
    lemma_fundamental_div_mod, lemma_fundamental_div_mod_converse, lemma_mod_bound,
    lemma_multiply_divide_lt, lemma_div_non_zero,
};
use rand::rngs::StdRng;

/// Everything fixed before a render starts.
#[derive(Debug, Clone, Copy, PartialEq, Eq, Structural)]
pub struct RenderParams {
    pub image_width: u32,
    pub image_height: u32,
    pub tile_width: u32,
    pub tile_height: u32,
    pub samples_per_pixel: u32,
    pub max_depth: u32,
}

/// How a sample jitters inside its pixel: a uniform draw for antialiasing,
/// or exactly the pixel center for deterministic runs.
#[derive(Debug, Clone, Copy, PartialEq, Eq, Structural)]
pub enum Jitter {
    Centered,
    Random,
}

/// A sane render configuration: positive tile sizes that evenly divide the
/// image, an image of at least two pixels a side (the sample coordinates
/// divide by side - 1), and at least one sample per pixel.
pub open spec fn spec_params_wf(p: RenderParams) -> bool {
    &&& 2 <= p.image_width <= 32768
    &&& 2 <= p.image_height <= 32768
    &&& 1 <= p.tile_width <= p.image_width
    &&& 1 <= p.tile_height <= p.image_height
    &&& p.image_width as int % p.tile_width as int == 0
    &&& p.image_height as int % p.tile_height as int == 0
    &&& 1 <= p.samples_per_pixel
}

pub open spec fn spec_tiles_per_row(p: RenderParams) -> int {
    p.image_width as int / p.tile_width as int
}

pub open spec fn spec_tiles_per_col(p: RenderParams) -> int {
    p.image_height as int / p.tile_height as int
}

pub open spec fn spec_num_tiles(p: RenderParams) -> int {
    spec_tiles_per_row(p) * spec_tiles_per_col(p)
}

/// Leftmost image column of a tile.
pub open spec fn spec_tile_col_start(p: RenderParams, t: int) -> int {
    (t % spec_tiles_per_row(p)) * p.tile_width as int
}

/// Topmost image row of a tile.
pub open spec fn spec_tile_row_start(p: RenderParams, t: int) -> int {
    (t / spec_tiles_per_row(p)) * p.tile_height as int
}

/// The tile that owns pixel (column i, row j).
pub open spec fn spec_tile_of(p: RenderParams, j: int, i: int) -> int {
    (j / p.tile_height as int) * spec_tiles_per_row(p) + i / p.tile_width as int
}

/// The configurations on which the whole pipeline is a pure function: every
/// surface a fuzz-free mirror, the lens closed, the jitter centered.
pub open spec fn spec_det_setup(world: HittableCollection, cam: Camera, jitter: Jitter) -> bool {
    spec_collection_det(world) && cam.lens_radius.raw == 0 && jitter is Centered
}

/// The normalized image coordinate of pixel `i` on a `w`-pixel side, for a
/// given in-pixel jitter.
pub open spec fn spec_sample_uv(i: int, w: int, jit: Fx) -> Fx {
    fdiv(fadd(fxr(sat(i * SCALE)), jit), fxr(sat((w - 1) * SCALE)))
}

/// The normalized image coordinate of a centered sample in pixel `i` of a
/// `w`-pixel side.
pub open spec fn spec_center_uv(i: int, w: int) -> Fx {
    spec_sample_uv(i, w, fxr(HALF_RAW as int))
}

/// A jitter offset the mode can produce: exactly the pixel center, or any
/// uniform draw.
pub open spec fn spec_jitter_draw(jitter: Jitter, u: Fx) -> bool {
    match jitter {
        Jitter::Centered => u == (Fx { raw: HALF_RAW }),
        Jitter::Random => spec_unit_draw(u),
    }
}

/// A point the lens sampler can produce: inside the unit disk, flat in z.
pub open spec fn spec_in_disk(d: Vec3) -> bool {
    spec_len_sq(d).raw < SCALE && d.z.raw == 0
}

/// One color a sample of pixel (i, j) can produce, whatever the draws: for
/// some jitter pair of the mode's shape and some lens draw, a possible
/// radiance of the sampled ray.
pub open spec fn spec_possible_sample(
    world: HittableCollection,
    cam: Camera,
    p: RenderParams,
    i: int,
    j: int,
    jitter: Jitter,
    c: Color,
) -> bool {
    exists|ju: Fx, jv: Fx, d: Vec3|
        #![trigger spec_jitter_draw(jitter, ju), spec_jitter_draw(jitter, jv), spec_len_sq(d)]
        spec_jitter_draw(jitter, ju) && spec_jitter_draw(jitter, jv) && spec_in_disk(d)
            && spec_possible_ray_color(
            spec_get_ray(
                cam,
                spec_sample_uv(i, p.image_width as int, ju),
                spec_sample_uv(j, p.image_height as int, jv),
                d,
            ),
            world,
            p.max_depth,
            c,
        )
}

/// A running total that `n` samples of pixel (i, j) can reach.
pub open spec fn spec_possible_accum(
    world: HittableCollection,
    cam: Camera,
    p: RenderParams,
    i: int,
    j: int,
    jitter: Jitter,
    n: nat,
    acc: Color,
) -> bool
    decreases n,
{
    if n == 0 {
        acc == spec_black()
    } else {
        exists|prev: Color, s: Color|
            #![trigger spec_add3(prev, s)]
            spec_possible_accum(world, cam, p, i, j, jitter, (n - 1) as nat, prev)
                && spec_possible_sample(world, cam, p, i, j, jitter, s) && acc == spec_add3(prev, s)
    }
}

/// A value pixel (i, j) can be assigned, whatever the draws: a possible
/// total of all its samples, averaged.
pub open spec fn spec_possible_pixel(
    world: HittableCollection,
    cam: Camera,
    p: RenderParams,
    i: int,
    j: int,
    jitter: Jitter,
    c: Color,
) -> bool {
    exists|acc: Color|
        #![trigger spec_div3(acc, fxr(sat(p.samples_per_pixel as int * SCALE)))]
        spec_possible_accum(world, cam, p, i, j, jitter, p.samples_per_pixel as nat, acc) && c
            == spec_div3(acc, fxr(sat(p.samples_per_pixel as int * SCALE)))
}

/// One deterministic sample of pixel (i, j).
pub open spec fn spec_sample_det(
    world: HittableCollection,
    cam: Camera,
    p: RenderParams,
    i: int,
    j: int,
) -> Color {
    let u = spec_center_uv(i, p.image_width as int);
    let v = spec_center_uv(j, p.image_height as int);
    spec_ray_color_det(spec_get_ray(cam, u, v, spec_vec3(fxr(0), fxr(0), fxr(0))), world, p.max_depth)
}

/// `c` accumulated `n` times onto black, in sampling order.
pub open spec fn spec_accum(c: Color, n: nat) -> Color
    decreases n,
{
    if n == 0 {
        spec_black()
    } else {
        spec_add3(spec_accum(c, (n - 1) as nat), c)
    }
}

/// The deterministic value of pixel (i, j): the accumulated samples,
/// averaged.
pub open spec fn spec_pixel_det(
    world: HittableCollection,
    cam: Camera,
    p: RenderParams,
    i: int,
    j: int,
) -> Color {
    spec_div3(
        spec_accum(spec_sample_det(world, cam, p, i, j), p.samples_per_pixel as nat),
        fxr(sat(p.samples_per_pixel as int * SCALE)),
    )
}

/// A frame buffer holding exactly the deterministic render of a scene.
pub open spec fn spec_frame_matches(
    f: Vec<Vec<Color>>,
    world: HittableCollection,
    cam: Camera,
    p: RenderParams,
) -> bool {
    &&& f@.len() == p.image_height as int
    &&& forall|j: int| 0 <= j < f@.len() ==> (#[trigger] f@[j])@.len() == p.image_width as int
    &&& forall|j: int, i: int|
        0 <= j < p.image_height as int && 0 <= i < p.image_width as int ==> (#[trigger] f@[j]@[i])
            == spec_pixel_det(world, cam, p, i, j)
}

/// The tile grid is non-empty, bounded, and spans the image exactly.
proof fn lemma_grid_bounds(p: RenderParams)
    requires
        spec_params_wf(p),
    ensures
        1 <= spec_tiles_per_row(p) <= p.image_width as int,
        1 <= spec_tiles_per_col(p) <= p.image_height as int,
        p.tile_width as int * spec_tiles_per_row(p) == p.image_width as int,
        p.tile_height as int * spec_tiles_per_col(p) == p.image_height as int,
        1 <= spec_num_tiles(p) <= 32768 * 32768,
{
    let w = p.image_width as int;
    let h = p.image_height as int;
    let tw = p.tile_width as int;
    let th = p.tile_height as int;
    let tpr = spec_tiles_per_row(p);
    let tpc = spec_tiles_per_col(p);
    lemma_div_non_zero(w, tw);
    lemma_div_non_zero(h, th);
    lemma_fundamental_div_mod(w, tw);
    lemma_fundamental_div_mod(h, th);
    assert(tw * tpr == w);
    assert(th * tpc == h);
    assert(tpr <= w) by (nonlinear_arith)
        requires
            tw * tpr == w,
            tw >= 1,
            tpr >= 1,
    ;
    assert(tpc <= h) by (nonlinear_arith)
        requires
            th * tpc == h,
            th >= 1,
            tpc >= 1,
    ;
    assert(1 <= tpr * tpc <= 32768 * 32768) by (nonlinear_arith)
        requires
            1 <= tpr <= 32768,
            1 <= tpc <= 32768,
    ;
}

/// The tile grid covers the image: each tile's pixel block lies inside the
/// frame.
proof fn lemma_tile_bounds(p: RenderParams, t: int)
    requires
        spec_params_wf(p),
        0 <= t < spec_num_tiles(p),
    ensures
        1 <= spec_tiles_per_row(p) <= p.image_width as int,
        1 <= spec_tiles_per_col(p) <= p.image_height as int,
        0 <= t % spec_tiles_per_row(p) < spec_tiles_per_row(p),
        0 <= t / spec_tiles_per_row(p) < spec_tiles_per_col(p),
        0 <= spec_tile_col_start(p, t),
        spec_tile_col_start(p, t) + p.tile_width as int <= p.image_width as int,
        0 <= spec_tile_row_start(p, t),
        spec_tile_row_start(p, t) + p.tile_height as int <= p.image_height as int,
{
    let w = p.image_width as int;
    let h = p.image_height as int;
    let tw = p.tile_width as int;
    let th = p.tile_height as int;
    let tpr = spec_tiles_per_row(p);
    let tpc = spec_tiles_per_col(p);
    lemma_grid_bounds(p);
    assert(tw * tpr == w);
    assert(th * tpc == h);
    lemma_mod_bound(t, tpr);
    lemma_multiply_divide_lt(t, tpr, tpc);
    assert((t % tpr) * tw + tw <= w) by (nonlinear_arith)
        requires
            0 <= t % tpr < tpr,
            tw * tpr == w,
            tw >= 1,
    ;
    assert(0 <= (t % tpr) * tw) by (nonlinear_arith)
        requires
            0 <= t % tpr,
            tw >= 1,
    ;
    assert((t / tpr) * th + th <= h) by (nonlinear_arith)
        requires
            0 <= t / tpr < tpc,
            th * tpc == h,
            th >= 1,
    ;
    assert(0 <= (t / tpr) * th) by (nonlinear_arith)
        requires
            0 <= t / tpr,
            th >= 1,
    ;
}

/// Round trip between a pixel's frame position and its tile coordinates:
/// the owning tile exists, and its origin plus the in-tile offset is the
/// pixel again.
proof fn lemma_tile_roundtrip(p: RenderParams, j: int, i: int)
    requires
        spec_params_wf(p),
        0 <= j < p.image_height as int,
        0 <= i < p.image_width as int,
    ensures
        0 <= spec_tile_of(p, j, i) < spec_num_tiles(p),
        0 <= i % (p.tile_width as int) < (p.tile_width as int),
        0 <= j % (p.tile_height as int) < (p.tile_height as int),
        spec_tile_col_start(p, spec_tile_of(p, j, i)) + i % (p.tile_width as int) == i,
        spec_tile_row_start(p, spec_tile_of(p, j, i)) + j % (p.tile_height as int) == j,
{
    let w = p.image_width as int;
    let h = p.image_height as int;
    let tw = p.tile_width as int;
    let th = p.tile_height as int;
    let tpr = spec_tiles_per_row(p);
    let tpc = spec_tiles_per_col(p);
    let qi = i / tw;
    let qj = j / th;
    let t = spec_tile_of(p, j, i);
    lemma_div_non_zero(w, tw);
    lemma_div_non_zero(h, th);
    lemma_fundamental_div_mod(w, tw);
    lemma_fundamental_div_mod(h, th);
    assert(tw * tpr == w);
    assert(th * tpc == h);
    lemma_mod_bound(i, tw);
    lemma_mod_bound(j, th);
    lemma_fundamental_div_mod(i, tw);
    lemma_fundamental_div_mod(j, th);
    assert(i < tw * tpr);
    assert(j < th * tpc);
    lemma_multiply_divide_lt(i, tw, tpr);
    lemma_multiply_divide_lt(j, th, tpc);
    assert(0 <= qi < tpr);
    assert(0 <= qj < tpc);
    assert(t < spec_num_tiles(p)) by (nonlinear_arith)
        requires
            t == qj * tpr + qi,
            0 <= qi < tpr,
            0 <= qj < tpc,
            spec_num_tiles(p) == tpr * tpc,
    ;
    assert(0 <= t) by (nonlinear_arith)
        requires
            t == qj * tpr + qi,
            0 <= qi,
            0 <= qj,
            tpr >= 1,
    ;
    lemma_fundamental_div_mod_converse(t, tpr, qj, qi);
    assert(t % tpr == qi && t / tpr == qj);
    assert(qi * tw + i % tw == i) by {
        assert(i == tw * qi + i % tw);
        assert(tw * qi == qi * tw) by (nonlinear_arith);
    }
    assert(qj * th + j % th == j) by {
        assert(j == th * qj + j % th);
        assert(th * qj == qj * th) by (nonlinear_arith);
    }
}

/// Estimate one pixel: `samples_per_pixel` jittered rays, averaged.  On a
/// deterministic configuration the result is exactly `spec_pixel_det`.
pub fn sample_pixel(
    world: &HittableCollection,
    camera: &Camera,
    params: RenderParams,
    i: u32,
    j: u32,
    jitter: Jitter,
    rng: &mut StdRng,
) -> (r: Color)
    requires
        spec_params_wf(params),
    ensures
        spec_det_setup(*world, *camera, jitter) ==> r == spec_pixel_det(
            *world,
            *camera,
            params,
            i as int,
            j as int,
        ),
        spec_possible_pixel(*world, *camera, params, i as int, j as int, jitter, r),
        spec_collection_unit_albedos(*world) ==> spec_unit_color(r),
{
    let mut pixel_color = black();
    let mut s: u32 = 0;
    while s < params.samples_per_pixel
        invariant
            s <= params.samples_per_pixel,
            spec_params_wf(params),
            spec_det_setup(*world, *camera, jitter) ==> pixel_color == spec_accum(
                spec_sample_det(*world, *camera, params, i as int, j as int),
                s as nat,
            ),
            spec_possible_accum(
                *world,
                *camera,
                params,
                i as int,
                j as int,
                jitter,
                s as nat,
                pixel_color,
            ),
            spec_collection_unit_albedos(*world) ==> (0 <= pixel_color.x.raw <= s as int * SCALE
                && 0 <= pixel_color.y.raw <= s as int * SCALE && 0 <= pixel_color.z.raw <= s as int
                * SCALE),
        decreases params.samples_per_pixel - s,
    {
        let ju = match jitter {
            Jitter::Centered => Fx { raw: HALF_RAW },
            Jitter::Random => random_float(rng),
        };
        let jv = match jitter {
            Jitter::Centered => Fx { raw: HALF_RAW },
            Jitter::Random => random_float(rng),
        };
        let u = Fx::from_int(i as i64).add(ju).div(Fx::from_int((params.image_width - 1) as i64));
        let v = Fx::from_int(j as i64).add(jv).div(Fx::from_int((params.image_height - 1) as i64));
        let ray = camera.get_ray(u, v, rng);
        let sample = get_ray_color(&ray, world, params.max_depth, rng);
        let prev_color = pixel_color;
        pixel_color.add_assign(sample);
        proof {
            assert(spec_jitter_draw(jitter, ju));
            assert(spec_jitter_draw(jitter, jv));
            assert(u == spec_sample_uv(i as int, params.image_width as int, ju));
            assert(v == spec_sample_uv(j as int, params.image_height as int, jv));
            let d = choose|pd: Vec3|
                (#[trigger] spec_len_sq(pd)).raw < SCALE && pd.z.raw == 0 && ray == spec_get_ray(
                    *camera,
                    u,
                    v,
                    pd,
                );
            assert(spec_in_disk(d));
            assert(spec_possible_ray_color(
                spec_get_ray(
                    *camera,
                    spec_sample_uv(i as int, params.image_width as int, ju),
                    spec_sample_uv(j as int, params.image_height as int, jv),
                    d,
                ),
                *world,
                params.max_depth,
                sample,
            ));
            assert(spec_possible_sample(
                *world,
                *camera,
                params,
                i as int,
                j as int,
                jitter,
                sample,
            ));
            assert(pixel_color == spec_add3(prev_color, sample));
            assert(spec_possible_accum(
                *world,
                *camera,
                params,
                i as int,
                j as int,
                jitter,
                (s + 1) as nat,
                pixel_color,
            ));
        }
        s = s + 1;
    }
    let total = pixel_color;
    let divisor = Fx::from_int(params.samples_per_pixel as i64);
    pixel_color.div_assign(divisor);
    proof {
        assert(divisor == fxr(sat(params.samples_per_pixel as int * SCALE)));
        assert(pixel_color == spec_div3(total, fxr(sat(params.samples_per_pixel as int * SCALE))));
        assert(spec_possible_pixel(
            *world,
            *camera,
            params,
            i as int,
            j as int,
            jitter,
            pixel_color,
        ));
        if spec_collection_unit_albedos(*world) {
            let n = params.samples_per_pixel as int;
            lemma_avg_unit(total.x.raw as int, n);
            lemma_avg_unit(total.y.raw as int, n);
            lemma_avg_unit(total.z.raw as int, n);
            assert(spec_unit_color(pixel_color));
        }
    }
    pixel_color
}

/// Render one tile into its own pixel block, row-major.
pub fn render_tile(
    world: &HittableCollection,
    camera: &Camera,
    params: RenderParams,
    tile_idx: u32,
    jitter: Jitter,
    rng: &mut StdRng,
) -> (r: Vec<Vec<Color>>)
    requires
        spec_params_wf(params),
        (tile_idx as int) < spec_num_tiles(params),
    ensures
        r@.len() == params.tile_height as int,
        forall|tj: int| 0 <= tj < r@.len() ==> (#[trigger] r@[tj])@.len() == params.tile_width as int,
        spec_det_setup(*world, *camera, jitter) ==> forall|tj: int, ti: int|
            0 <= tj < params.tile_height as int && 0 <= ti < params.tile_width as int ==> (
            #[trigger] r@[tj]@[ti]) == spec_pixel_det(
                *world,
                *camera,
                params,
                spec_tile_col_start(params, tile_idx as int) + ti,
                spec_tile_row_start(params, tile_idx as int) + tj,
            ),
        forall|tj: int, ti: int|
            0 <= tj < params.tile_height as int && 0 <= ti < params.tile_width as int
                ==> spec_possible_pixel(
                *world,
                *camera,
                params,
                spec_tile_col_start(params, tile_idx as int) + ti,
                spec_tile_row_start(params, tile_idx as int) + tj,
                jitter,
                (#[trigger] r@[tj]@[ti]),
            ),
        spec_collection_unit_albedos(*world) ==> forall|tj: int, ti: int|
            0 <= tj < params.tile_height as int && 0 <= ti < params.tile_width as int
                ==> spec_unit_color((#[trigger] r@[tj]@[ti])),
{
    proof {
        lemma_tile_bounds(params, tile_idx as int);
    }
    let tiles_per_row = params.image_width / params.tile_width;
    let col_start = (tile_idx % tiles_per_row) * params.tile_width;
    let row_start = (tile_idx / tiles_per_row) * params.tile_height;
    let mut tile_buffer: Vec<Vec<Color>> = Vec::new();
    let mut tj: u32 = 0;
    while tj < params.tile_height
        invariant
            tj <= params.tile_height,
            spec_params_wf(params),
            (tile_idx as int) < spec_num_tiles(params),
            col_start as int == spec_tile_col_start(params, tile_idx as int),
            row_start as int == spec_tile_row_start(params, tile_idx as int),
            col_start + params.tile_width <= params.image_width,
            row_start + params.tile_height <= params.image_height,
            tile_buffer@.len() == tj as int,
            forall|a: int|
                0 <= a < tile_buffer@.len() ==> (#[trigger] tile_buffer@[a])@.len()
                    == params.tile_width as int,
            spec_det_setup(*world, *camera, jitter) ==> forall|a: int, b: int|
                0 <= a < tile_buffer@.len() && 0 <= b < params.tile_width as int ==> (
                #[trigger] tile_buffer@[a]@[b]) == spec_pixel_det(
                    *world,
                    *camera,
                    params,
                    col_start as int + b,
                    row_start as int + a,
                ),
            forall|a: int, b: int|
                0 <= a < tile_buffer@.len() && 0 <= b < params.tile_width as int
                    ==> spec_possible_pixel(
                    *world,
                    *camera,
                    params,
                    col_start as int + b,
                    row_start as int + a,
                    jitter,
                    (#[trigger] tile_buffer@[a]@[b]),
                ),
            spec_collection_unit_albedos(*world) ==> forall|a: int, b: int|
                0 <= a < tile_buffer@.len() && 0 <= b < params.tile_width as int
                    ==> spec_unit_color((#[trigger] tile_buffer@[a]@[b])),
        decreases params.tile_height - tj,
    {
        let mut row: Vec<Color> = Vec::new();
        let mut ti: u32 = 0;
        while ti < params.tile_width
            invariant
                ti <= params.tile_width,
                tj < params.tile_height,
                spec_params_wf(params),
                col_start + params.tile_width <= params.image_width,
                row_start + params.tile_height <= params.image_height,
                row@.len() == ti as int,
                spec_det_setup(*world, *camera, jitter) ==> forall|b: int|
                    0 <= b < row@.len() ==> (#[trigger] row@[b]) == spec_pixel_det(
                        *world,
                        *camera,
                        params,
                        col_start as int + b,
                        row_start as int + tj as int,
                    ),
                forall|b: int|
                    0 <= b < row@.len() ==> spec_possible_pixel(
                        *world,
                        *camera,
                        params,
                        col_start as int + b,
                        row_start as int + tj as int,
                        jitter,
                        (#[trigger] row@[b]),
                    ),
                spec_collection_unit_albedos(*world) ==> forall|b: int|
                    0 <= b < row@.len() ==> spec_unit_color((#[trigger] row@[b])),
            decreases params.tile_width - ti,
        {
            let c = sample_pixel(world, camera, params, col_start + ti, row_start + tj, jitter, rng);
            row.push(c);
            ti = ti + 1;
        }
        tile_buffer.push(row);
        tj = tj + 1;
    }
    tile_buffer
}

/// Put every tile's pixel block at its absolute position: reassembly is
/// pure index arithmetic, and each frame slot is filled from exactly the
/// tile that owns it.
pub fn assemble_frame(params: RenderParams, tiles: &Vec<Vec<Vec<Color>>>) -> (r: Vec<Vec<Color>>)
    requires
        spec_params_wf(params),
        tiles@.len() == spec_num_tiles(params),
        forall|t: int| 0 <= t < tiles@.len() ==> (#[trigger] tiles@[t])@.len() == params.tile_height as int,
        forall|t: int, a: int|
            0 <= t < tiles@.len() && 0 <= a < params.tile_height as int ==> (
            #[trigger] tiles@[t]@[a])@.len() == params.tile_width as int,
    ensures
        r@.len() == params.image_height as int,
        forall|j: int| 0 <= j < r@.len() ==> (#[trigger] r@[j])@.len() == params.image_width as int,
        forall|j: int, i: int|
            0 <= j < params.image_height as int && 0 <= i < params.image_width as int ==> (
            #[trigger] r@[j]@[i]) == tiles@[spec_tile_of(params, j, i)]@[j % (
            params.tile_height as int)]@[i % (params.tile_width as int)],
{
    let tiles_per_row = params.image_width / params.tile_width;
    let mut frame: Vec<Vec<Color>> = Vec::new();
    let mut j: u32 = 0;
    while j < params.image_height
        invariant
            j <= params.image_height,
            spec_params_wf(params),
            tiles_per_row as int == spec_tiles_per_row(params),
            tiles@.len() == spec_num_tiles(params),
            forall|t: int|
                0 <= t < tiles@.len() ==> (#[trigger] tiles@[t])@.len() == params.tile_height as int,
            forall|t: int, a: int|
                0 <= t < tiles@.len() && 0 <= a < params.tile_height as int ==> (
                #[trigger] tiles@[t]@[a])@.len() == params.tile_width as int,
            frame@.len() == j as int,
            forall|b: int|
                0 <= b < frame@.len() ==> (#[trigger] frame@[b])@.len() == params.image_width as int,
            forall|b: int, a: int|
                0 <= b < frame@.len() && 0 <= a < params.image_width as int ==> (
                #[trigger] frame@[b]@[a]) == tiles@[spec_tile_of(params, b, a)]@[b % (
                params.tile_height as int)]@[a % (params.tile_width as int)],
        decreases params.image_height - j,
    {
        let mut row: Vec<Color> = Vec::new();
        let mut i: u32 = 0;
        while i < params.image_width
            invariant
                i <= params.image_width,
                j < params.image_height,
                spec_params_wf(params),
                tiles_per_row as int == spec_tiles_per_row(params),
                tiles@.len() == spec_num_tiles(params),
                forall|t: int|
                    0 <= t < tiles@.len() ==> (#[trigger] tiles@[t])@.len()
                        == params.tile_height as int,
                forall|t: int, a: int|
                    0 <= t < tiles@.len() && 0 <= a < params.tile_height as int ==> (
                    #[trigger] tiles@[t]@[a])@.len() == params.tile_width as int,
                row@.len() == i as int,
                forall|a: int|
                    0 <= a < row@.len() ==> (#[trigger] row@[a]) == tiles@[spec_tile_of(
                        params,
                        j as int,
                        a,
                    )]@[j as int % (params.tile_height as int)]@[a % (params.tile_width as int)],
            decreases params.image_width - i,
        {
            proof {
                lemma_grid_bounds(params);
                lemma_tile_roundtrip(params, j as int, i as int);
                lemma_tile_bounds(params, spec_tile_of(params, j as int, i as int));
                assert((j as int / params.tile_height as int) * spec_tiles_per_row(params) + (
                i as int / params.tile_width as int) == spec_tile_of(params, j as int, i as int));
            }
            let t = (j / params.tile_height) * tiles_per_row + i / params.tile_width;
            let c = tiles[t as usize][(j % params.tile_height) as usize][(i % params.tile_width) as usize];
            row.push(c);
            i = i + 1;
        }
        frame.push(row);
        j = j + 1;
    }
    frame
}

/// Render the whole image tile by tile, sequentially, and reassemble.  On a
/// deterministic configuration the frame is exactly the per-pixel spec -
/// whatever tile sizes partition the image.
pub fn render(
    world: &HittableCollection,
    camera: &Camera,
    params: RenderParams,
    jitter: Jitter,
    rng: &mut StdRng,
) -> (r: Vec<Vec<Color>>)
    requires
        spec_params_wf(params),
    ensures
        r@.len() == params.image_height as int,
        forall|j: int| 0 <= j < r@.len() ==> (#[trigger] r@[j])@.len() == params.image_width as int,
        spec_det_setup(*world, *camera, jitter) ==> spec_frame_matches(r, *world, *camera, params),
        forall|j: int, i: int|
            0 <= j < params.image_height as int && 0 <= i < params.image_width as int
                ==> spec_possible_pixel(*world, *camera, params, i, j, jitter, (
            #[trigger] r@[j]@[i])),
        spec_collection_unit_albedos(*world) ==> forall|j: int, i: int|
            0 <= j < params.image_height as int && 0 <= i < params.image_width as int
                ==> spec_unit_color((#[trigger] r@[j]@[i])),
{
    let tiles_per_row = params.image_width / params.tile_width;
    let tiles_per_col = params.image_height / params.tile_height;
    proof {
        lemma_grid_bounds(params);
        assert(tiles_per_row as int * tiles_per_col as int == spec_num_tiles(params));
    }
    let num_tiles = tiles_per_row * tiles_per_col;
    let mut tiles: Vec<Vec<Vec<Color>>> = Vec::new();
    let mut t: u32 = 0;
    while t < num_tiles
        invariant
            t <= num_tiles,
            spec_params_wf(params),
            num_tiles as int == spec_num_tiles(params),
            tiles@.len() == t as int,
            forall|tt: int|
                0 <= tt < tiles@.len() ==> (#[trigger] tiles@[tt])@.len()
                    == params.tile_height as int,
            forall|tt: int, a: int|
                0 <= tt < tiles@.len() && 0 <= a < params.tile_height as int ==> (
                #[trigger] tiles@[tt]@[a])@.len() == params.tile_width as int,
            spec_det_setup(*world, *camera, jitter) ==> forall|tt: int, a: int, b: int|
                0 <= tt < tiles@.len() && 0 <= a < params.tile_height as int && 0 <= b
                    < params.tile_width as int ==> (#[trigger] tiles@[tt]@[a]@[b])
                    == spec_pixel_det(
                    *world,
                    *camera,
                    params,
                    spec_tile_col_start(params, tt) + b,
                    spec_tile_row_start(params, tt) + a,
                ),
            forall|tt: int, a: int, b: int|
                0 <= tt < tiles@.len() && 0 <= a < params.tile_height as int && 0 <= b
                    < params.tile_width as int ==> spec_possible_pixel(
                    *world,
                    *camera,
                    params,
                    spec_tile_col_start(params, tt) + b,
                    spec_tile_row_start(params, tt) + a,
                    jitter,
                    (#[trigger] tiles@[tt]@[a]@[b]),
                ),
            spec_collection_unit_albedos(*world) ==> forall|tt: int, a: int, b: int|
                0 <= tt < tiles@.len() && 0 <= a < params.tile_height as int && 0 <= b
                    < params.tile_width as int ==> spec_unit_color(
                    (#[trigger] tiles@[tt]@[a]@[b]),
                ),
        decreases num_tiles - t,
    {
        let tile = render_tile(world, camera, params, t, jitter, rng);
        tiles.push(tile);
        t = t + 1;
    }
    let frame = assemble_frame(params, &tiles);
    proof {
        if spec_det_setup(*world, *camera, jitter) {
            assert forall|j: int, i: int|
                0 <= j < params.image_height as int && 0 <= i
                    < params.image_width as int implies (#[trigger] frame@[j]@[i])
                == spec_pixel_det(*world, *camera, params, i, j) by {
                lemma_tile_roundtrip(params, j, i);
            }
        }
        assert forall|j: int, i: int|
            0 <= j < params.image_height as int && 0 <= i
                < params.image_width as int implies spec_possible_pixel(
            *world,
            *camera,
            params,
            i,
            j,
            jitter,
            (#[trigger] frame@[j]@[i]),
        ) by {
            lemma_tile_roundtrip(params, j, i);
        }
        if spec_collection_unit_albedos(*world) {
            assert forall|j: int, i: int|
                0 <= j < params.image_height as int && 0 <= i
                    < params.image_width as int implies spec_unit_color(
                (#[trigger] frame@[j]@[i]),
            ) by {
                lemma_tile_roundtrip(params, j, i);
            }
        }
    }
    frame
}

/// Render the whole image in one non-tiled sweep over its pixels.
pub fn render_sweep(
    world: &HittableCollection,
    camera: &Camera,
    params: RenderParams,
    jitter: Jitter,
    rng: &mut StdRng,
) -> (r: Vec<Vec<Color>>)
    requires
        spec_params_wf(params),
    ensures
        r@.len() == params.image_height as int,
        forall|j: int| 0 <= j < r@.len() ==> (#[trigger] r@[j])@.len() == params.image_width as int,
        spec_det_setup(*world, *camera, jitter) ==> spec_frame_matches(r, *world, *camera, params),
        forall|j: int, i: int|
            0 <= j < params.image_height as int && 0 <= i < params.image_width as int
                ==> spec_possible_pixel(*world, *camera, params, i, j, jitter, (
            #[trigger] r@[j]@[i])),
        spec_collection_unit_albedos(*world) ==> forall|j: int, i: int|
            0 <= j < params.image_height as int && 0 <= i < params.image_width as int
                ==> spec_unit_color((#[trigger] r@[j]@[i])),
{
    let mut frame: Vec<Vec<Color>> = Vec::new();
    let mut j: u32 = 0;
    while j < params.image_height
        invariant
            j <= params.image_height,
            spec_params_wf(params),
            frame@.len() == j as int,
            forall|b: int|
                0 <= b < frame@.len() ==> (#[trigger] frame@[b])@.len() == params.image_width as int,
            spec_det_setup(*world, *camera, jitter) ==> forall|b: int, a: int|
                0 <= b < frame@.len() && 0 <= a < params.image_width as int ==> (
                #[trigger] frame@[b]@[a]) == spec_pixel_det(*world, *camera, params, a, b),
            forall|b: int, a: int|
                0 <= b < frame@.len() && 0 <= a < params.image_width as int
                    ==> spec_possible_pixel(
                    *world,
                    *camera,
                    params,
                    a,
                    b,
                    jitter,
                    (#[trigger] frame@[b]@[a]),
                ),
            spec_collection_unit_albedos(*world) ==> forall|b: int, a: int|
                0 <= b < frame@.len() && 0 <= a < params.image_width as int ==> spec_unit_color(
                    (#[trigger] frame@[b]@[a]),
                ),
        decreases params.image_height - j,
    {
        let mut row: Vec<Color> = Vec::new();
        let mut i: u32 = 0;
        while i < params.image_width
            invariant
                i <= params.image_width,
                j < params.image_height,
                spec_params_wf(params),
                row@.len() == i as int,
                spec_det_setup(*world, *camera, jitter) ==> forall|a: int|
                    0 <= a < row@.len() ==> (#[trigger] row@[a]) == spec_pixel_det(
                        *world,
                        *camera,
                        params,
                        a,
                        j as int,
                    ),
                forall|a: int|
                    0 <= a < row@.len() ==> spec_possible_pixel(
                        *world,
                        *camera,
                        params,
                        a,
                        j as int,
                        jitter,
                        (#[trigger] row@[a]),
                    ),
                spec_collection_unit_albedos(*world) ==> forall|a: int|
                    0 <= a < row@.len() ==> spec_unit_color((#[trigger] row@[a])),
            decreases params.image_width - i,
        {
            let c = sample_pixel(world, camera, params, i, j, jitter, rng);
            row.push(c);
            i = i + 1;
        }
        frame.push(row);
        j = j + 1;
    }
    frame
}

/// Law: rendering a deterministic configuration is idempotent.  Two frames
/// of the same scene, camera and parameters agree pixel for pixel.
pub proof fn lemma_render_idempotent(
    f1: Vec<Vec<Color>>,
    f2: Vec<Vec<Color>>,
    world: HittableCollection,
    cam: Camera,
    p: RenderParams,
)
    requires
        spec_frame_matches(f1, world, cam, p),
        spec_frame_matches(f2, world, cam, p),
    ensures
        f1@.len() == f2@.len(),
        forall|j: int| 0 <= j < f1@.len() ==> (#[trigger] f1@[j])@ == f2@[j]@,
{
    assert forall|j: int| 0 <= j < f1@.len() implies (#[trigger] f1@[j])@ == f2@[j]@ by {
        assert(f1@[j]@ =~= f2@[j]@);
    }
}

/// Law: the tiling is invisible in the result.  Frames rendered from the
/// same scene, camera, sample count and depth agree pixel for pixel no
/// matter which tile partition (or none: the sweep) produced each.
pub proof fn lemma_tiling_invariant(
    f1: Vec<Vec<Color>>,
    f2: Vec<Vec<Color>>,
    world: HittableCollection,
    cam: Camera,
    p1: RenderParams,
    p2: RenderParams,
)
    requires
        spec_frame_matches(f1, world, cam, p1),
        spec_frame_matches(f2, world, cam, p2),
        p1.image_width == p2.image_width,
        p1.image_height == p2.image_height,
        p1.samples_per_pixel == p2.samples_per_pixel,
        p1.max_depth == p2.max_depth,
    ensures
        f1@.len() == f2@.len(),
        forall|j: int| 0 <= j < f1@.len() ==> (#[trigger] f1@[j])@ == f2@[j]@,
{
    assert forall|j: int, i: int|
        0 <= j < p1.image_height as int && 0 <= i < p1.image_width as int implies spec_pixel_det(
        world,
        cam,
        p1,
        i,
        j,
    ) == spec_pixel_det(world, cam, p2, i, j) by {
        assert(spec_sample_det(world, cam, p1, i, j) == spec_sample_det(world, cam, p2, i, j));
    }
    assert forall|j: int| 0 <= j < f1@.len() implies (#[trigger] f1@[j])@ == f2@[j]@ by {
        assert(f1@[j]@ =~= f2@[j]@);
    }
}

} // verus!
