use rand::SeedableRng;
use raytrace::fx::{Fx, SCALE};
use raytrace::math::{random_float, Vec3};
use raytrace::render::{render, render_sweep, render_tile, assemble_frame, Jitter, RenderParams};
use raytrace::trace::{
    white, Camera, Hittable, HittableCollection, LambertianMaterial, Material, MetalMaterial,
    Sphere,
};

fn fx(i: i64) -> Fx {
    Fx::from_int(i)
}

fn v3(x: i64, y: i64, z: i64) -> Vec3 {
    Vec3::new(fx(x), fx(y), fx(z))
}

fn rng_from(seed: u64) -> rand::rngs::StdRng {
    rand::rngs::StdRng::seed_from_u64(seed)
}

fn test_camera() -> Camera {
    Camera::new(
        &v3(0, 0, 2),
        &v3(0, 0, 0),
        &v3(0, 1, 0),
        fx(90),
        fx(1),
        fx(0), // aperture 0: the lens draw is scaled away
        fx(1),
    )
}

fn params(w: u32, h: u32, tw: u32, th: u32, spp: u32, depth: u32) -> RenderParams {
    RenderParams {
        image_width: w,
        image_height: h,
        tile_width: tw,
        tile_height: th,
        samples_per_pixel: spp,
        max_depth: depth,
    }
}

fn mirror_world() -> HittableCollection {
    let m = Material::Metal(MetalMaterial {
        albedo: Vec3::new(Fx { raw: 45875 }, Fx { raw: 39321 }, Fx { raw: 32768 }),
        fuzziness: fx(0),
    });
    let mut world = HittableCollection::new();
    world.add(Hittable::Sphere(Sphere::new(&v3(0, 0, -1), fx(1), m)));
    world.add(Hittable::Sphere(Sphere::new(&v3(0, -101, 0), fx(100), m)));
    world
}

#[test]
fn uniform_draw_stays_in_unit_interval() {
    let mut rng = rng_from(11);
    let mut distinct = false;
    let first = random_float(&mut rng).raw;
    for _ in 0..1000 {
        let r = random_float(&mut rng).raw;
        assert!((0..SCALE).contains(&r));
        if r != first {
            distinct = true;
        }
    }
    assert!(distinct, "a uniform source must not be constant");
}

#[test]
fn single_white_sphere_under_sky() {
    // A single unit sphere of pure-white diffuse material lit by the sky,
    // 2x2 pixels, one sample, one bounce: every pixel is a valid color and
    // strictly darker than pure white in the red channel.
    let m = Material::Lambertian(LambertianMaterial { albedo: white() });
    let mut world = HittableCollection::new();
    world.add(Hittable::Sphere(Sphere::new(&v3(0, 0, -1), fx(1), m)));
    let camera = test_camera();
    let mut rng = rng_from(12);
    let frame = render(&world, &camera, params(2, 2, 1, 1, 1, 1), Jitter::Centered, &mut rng);
    assert_eq!(frame.len(), 2);
    for row in &frame {
        assert_eq!(row.len(), 2);
        for c in row {
            for ch in [c.x.raw, c.y.raw, c.z.raw] {
                assert!((0..=SCALE).contains(&ch), "channel out of range: {ch}");
            }
            assert!(c.x.raw < SCALE, "strictly darker than white");
        }
    }
}

#[test]
fn deterministic_render_is_idempotent() {
    // A fuzz-free metal scene with a closed lens and centered jitter is a
    // pure function: two renders agree bit for bit even with different
    // random generators.
    let world = mirror_world();
    let camera = test_camera();
    let p = params(4, 4, 2, 2, 1, 4);
    let mut rng1 = rng_from(100);
    let mut rng2 = rng_from(999);
    let f1 = render(&world, &camera, p, Jitter::Centered, &mut rng1);
    let f2 = render(&world, &camera, p, Jitter::Centered, &mut rng2);
    assert_eq!(f1, f2);
}

#[test]
fn seeded_render_is_reproducible() {
    // With random jitter the draws decide, and an equal seed reproduces
    // the frame exactly.
    let world = mirror_world();
    let camera = test_camera();
    let p = params(4, 4, 2, 2, 2, 4);
    let mut rng1 = rng_from(7);
    let mut rng2 = rng_from(7);
    let f1 = render(&world, &camera, p, Jitter::Random, &mut rng1);
    let f2 = render(&world, &camera, p, Jitter::Random, &mut rng2);
    assert_eq!(f1, f2);
}

#[test]
fn tiling_does_not_change_the_frame() {
    // Any tile partition that divides the image evenly, and the non-tiled
    // sweep, reassemble to the same frame on a deterministic run.
    let world = mirror_world();
    let camera = test_camera();
    let mut rng = rng_from(13);
    let f_1x1 = render(&world, &camera, params(4, 4, 1, 1, 1, 4), Jitter::Centered, &mut rng);
    let f_2x2 = render(&world, &camera, params(4, 4, 2, 2, 1, 4), Jitter::Centered, &mut rng);
    let f_4x1 = render(&world, &camera, params(4, 4, 4, 1, 1, 4), Jitter::Centered, &mut rng);
    let f_sweep =
        render_sweep(&world, &camera, params(4, 4, 4, 4, 1, 4), Jitter::Centered, &mut rng);
    assert_eq!(f_1x1, f_2x2);
    assert_eq!(f_2x2, f_4x1);
    assert_eq!(f_4x1, f_sweep);
}

#[test]
fn tiles_reassemble_at_their_positions() {
    let world = mirror_world();
    let camera = test_camera();
    let p = params(4, 2, 2, 2, 1, 2);
    let mut rng = rng_from(14);
    let t0 = render_tile(&world, &camera, p, 0, Jitter::Centered, &mut rng);
    let t1 = render_tile(&world, &camera, p, 1, Jitter::Centered, &mut rng);
    assert_eq!(t0.len(), 2);
    assert_eq!(t0[0].len(), 2);
    let frame = assemble_frame(p, &vec![t0.clone(), t1.clone()]);
    assert_eq!(frame.len(), 2);
    assert_eq!(frame[0].len(), 4);
    for tj in 0..2 {
        for ti in 0..2 {
            assert_eq!(frame[tj][ti], t0[tj][ti]);
            assert_eq!(frame[tj][2 + ti], t1[tj][ti]);
        }
    }
}

#[test]
fn stochastic_render_stays_in_range() {
    // With random jitter and a diffuse world of in-range albedos, every
    // channel of every pixel stays inside [0, 1], whatever was drawn.
    let m = Material::Lambertian(LambertianMaterial {
        albedo: Vec3::new(Fx { raw: 45875 }, Fx { raw: 32768 }, Fx { raw: 16384 }),
    });
    let mut world = HittableCollection::new();
    world.add(Hittable::Sphere(Sphere::new(&v3(0, 0, -1), fx(1), m)));
    let camera = test_camera();
    let mut rng = rng_from(41);
    let frame = render(&world, &camera, params(4, 4, 2, 2, 4, 3), Jitter::Random, &mut rng);
    for row in &frame {
        for c in row {
            for ch in [c.x.raw, c.y.raw, c.z.raw] {
                assert!((0..=SCALE).contains(&ch), "channel out of range: {ch}");
            }
        }
    }
}
