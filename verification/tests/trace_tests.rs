use rand::SeedableRng;
use raytrace::fx::{Fx, RAW_BOUND, SCALE};
use raytrace::math::{Ray, Vec3};
use raytrace::trace::{
    black, get_ray_color, white, DiaelectriMaterial, HitRecord, Hittable, HittableCollection,
    LambertianMaterial, Material, MetalMaterial, Sphere, HIT_EPS_RAW,
};

fn fx(i: i64) -> Fx {
    Fx::from_int(i)
}

fn v3(x: i64, y: i64, z: i64) -> Vec3 {
    Vec3::new(fx(x), fx(y), fx(z))
}

fn gray() -> Material {
    Material::Lambertian(LambertianMaterial { albedo: Vec3::new(Fx { raw: 32768 }, Fx { raw: 32768 }, Fx { raw: 32768 }) })
}

fn rng_from(seed: u64) -> rand::rngs::StdRng {
    rand::rngs::StdRng::seed_from_u64(seed)
}

#[test]
fn head_on_hit_distance_and_normal() {
    // Aimed at the center from 3 away with radius 1: the hit is at
    // t = distance - radius = 2, and the normal is parallel to
    // (point - center), pointing back at the ray.
    let sphere = Sphere::new(&v3(0, 0, -3), fx(1), gray());
    let ray = Ray { origin: v3(0, 0, 0), direction: v3(0, 0, -1) };
    let hit = sphere.hit(&ray, Fx { raw: HIT_EPS_RAW }, Fx { raw: RAW_BOUND }).unwrap();
    assert_eq!(hit.t, fx(2));
    assert_eq!(hit.point, v3(0, 0, -2));
    assert_eq!(hit.normal, v3(0, 0, 1));
    assert!(hit.front_face);
}

#[test]
fn perpendicular_offset_misses() {
    // Offset 2 above a unit sphere: no hit from that sphere, and the
    // aggregate falls through to the next primitive behind it.
    let near = Sphere::new(&v3(0, 0, -3), fx(1), gray());
    let ray = Ray { origin: v3(0, 2, 0), direction: v3(0, 0, -1) };
    assert!(near.hit(&ray, Fx { raw: HIT_EPS_RAW }, Fx { raw: RAW_BOUND }).is_none());

    let mut world = HittableCollection::new();
    world.add(Hittable::Sphere(near));
    world.add(Hittable::Sphere(Sphere::new(&v3(0, 2, -5), fx(1), gray())));
    let hit = world.hit(&ray, Fx { raw: HIT_EPS_RAW }, Fx { raw: RAW_BOUND }).unwrap();
    assert_eq!(hit.t, fx(4));
}

#[test]
fn aggregate_returns_minimum_t() {
    // Overlapping spheres in both orders: the aggregate hit is the
    // minimum t among the members.
    let a = Sphere::new(&v3(0, 0, -3), fx(1), gray());
    let b = Sphere::new(&v3(0, 0, -4), fx(2), gray());
    let ray = Ray { origin: v3(0, 0, 0), direction: v3(0, 0, -1) };

    let mut world1 = HittableCollection::new();
    world1.add(Hittable::Sphere(a));
    world1.add(Hittable::Sphere(b));
    let mut world2 = HittableCollection::new();
    world2.add(Hittable::Sphere(b));
    world2.add(Hittable::Sphere(a));

    let h1 = world1.hit(&ray, Fx { raw: HIT_EPS_RAW }, Fx { raw: RAW_BOUND }).unwrap();
    let h2 = world2.hit(&ray, Fx { raw: HIT_EPS_RAW }, Fx { raw: RAW_BOUND }).unwrap();
    assert_eq!(h1.t, fx(2));
    assert_eq!(h2.t, fx(2));
}

#[test]
fn open_interval_excludes_near_root() {
    // Roots at t = 2 and t = 4; with t_min = 2 the near root is excluded
    // by the strict interval and the far root is returned.
    let sphere = Sphere::new(&v3(0, 0, -3), fx(1), gray());
    let ray = Ray { origin: v3(0, 0, 0), direction: v3(0, 0, -1) };
    let hit = sphere.hit(&ray, fx(2), fx(10)).unwrap();
    assert_eq!(hit.t, fx(4));
    assert!(!hit.front_face); // leaving the sphere: the stored normal flips
}

#[test]
fn scene_of_scenes_hits_like_flat() {
    let a = Sphere::new(&v3(0, 0, -3), fx(1), gray());
    let b = Sphere::new(&v3(0, 0, -8), fx(1), gray());
    let mut inner = HittableCollection::new();
    inner.add(Hittable::Sphere(a));
    let mut world = HittableCollection::new();
    world.add(Hittable::group(inner));
    world.add(Hittable::Sphere(b));
    let ray = Ray { origin: v3(0, 0, 0), direction: v3(0, 0, -1) };
    let hit = world.hit(&ray, Fx { raw: HIT_EPS_RAW }, Fx { raw: RAW_BOUND }).unwrap();
    assert_eq!(hit.t, fx(2));
}

#[test]
fn zero_direction_never_hits() {
    let sphere = Sphere::new(&v3(0, 0, -3), fx(1), gray());
    let ray = Ray { origin: v3(0, 0, 0), direction: v3(0, 0, 0) };
    assert!(sphere.hit(&ray, Fx { raw: HIT_EPS_RAW }, Fx { raw: RAW_BOUND }).is_none());
    // even an interval containing t = 0 reports no intersection
    assert!(sphere.hit(&ray, fx(-1), fx(1)).is_none());
}

fn sample_hit() -> HitRecord {
    HitRecord {
        point: v3(0, 0, -2),
        normal: v3(0, 0, 1),
        t: fx(2),
        front_face: true,
        material: gray(),
    }
}

#[test]
fn lambertian_never_absorbs() {
    let mut rng = rng_from(1);
    let m = LambertianMaterial { albedo: Vec3::new(Fx { raw: 16384 }, Fx { raw: 32768 }, fx(1)) };
    let hit = sample_hit();
    let ray = Ray { origin: v3(0, 0, 0), direction: v3(0, 0, -1) };
    for _ in 0..50 {
        let mut attenuation = white();
        let scattered = m.scatter(&ray, &hit, &mut attenuation, &mut rng);
        assert!(scattered.is_some());
        assert_eq!(attenuation, m.albedo);
    }
}

#[test]
fn metal_absorbs_exactly_when_bounce_enters_surface() {
    let mut rng = rng_from(2);
    let m = MetalMaterial { albedo: white(), fuzziness: fx(0) };
    let ray = Ray { origin: v3(0, 0, 0), direction: Vec3::new(fx(1), fx(-1), fx(0)) };
    let mut hit = sample_hit();
    hit.normal = v3(0, 1, 0);
    let mut attenuation = black();
    let scattered = m.scatter(&ray, &hit, &mut attenuation, &mut rng).unwrap();
    assert_eq!(scattered.direction, v3(1, 1, 0));
    assert_eq!(scattered.origin, hit.point);
    assert_eq!(attenuation, m.albedo);

    // The same bounce against an inverted normal goes into the surface
    // and is absorbed.
    hit.normal = v3(0, -1, 0);
    let absorbed = m.scatter(&ray, &hit, &mut attenuation, &mut rng);
    assert!(absorbed.is_none());
}

#[test]
fn dielectric_never_absorbs() {
    let mut rng = rng_from(3);
    let m = DiaelectriMaterial::new(Fx { raw: 98304 }).unwrap(); // index 1.5
    let ray = Ray { origin: v3(0, 0, 0), direction: v3(0, 0, -1) };
    let hit = sample_hit();
    for _ in 0..50 {
        let mut attenuation = black();
        let scattered = Material::Dielectric(m).scatter(&ray, &hit, &mut attenuation, &mut rng);
        assert!(scattered.is_some());
        assert_eq!(attenuation, white());
    }
}

#[test]
fn dielectric_rejects_non_positive_index() {
    assert!(DiaelectriMaterial::new(fx(0)).is_none());
    assert!(DiaelectriMaterial::new(fx(-2)).is_none());
    let ok = DiaelectriMaterial::new(Fx { raw: 98304 }).unwrap();
    assert_eq!(ok.albedo, white());
    assert_eq!(ok.ref_idx.raw, 98304);
}

#[test]
fn ray_color_depth_zero_is_black() {
    let mut rng = rng_from(4);
    let mut world = HittableCollection::new();
    world.add(Hittable::Sphere(Sphere::new(&v3(0, 0, -3), fx(1), gray())));
    let ray = Ray { origin: v3(0, 0, 0), direction: v3(0, 0, -1) };
    assert_eq!(get_ray_color(&ray, &world, 0, &mut rng), black());
}

#[test]
fn ray_color_miss_is_background_gradient() {
    let mut rng = rng_from(5);
    let world = HittableCollection::new();
    // Horizontal unit direction: y = 0, so t = 0.5 and the color is the
    // even blend of white and sky blue.
    let ray = Ray { origin: v3(0, 0, 0), direction: v3(0, 0, -1) };
    let c = get_ray_color(&ray, &world, 10, &mut rng);
    assert_eq!(c.x.raw, 49152);
    assert_eq!(c.y.raw, 55705);
    assert_eq!(c.z.raw, SCALE);
}

#[test]
fn ray_color_absorbed_bounce_is_black() {
    let mut rng = rng_from(6);
    // A ray exactly tangent to a fuzz-free metal sphere: the discriminant
    // is zero, the reflected direction grazes the surface, and the bounce
    // is absorbed.
    let m = Material::Metal(MetalMaterial { albedo: white(), fuzziness: fx(0) });
    let mut world = HittableCollection::new();
    world.add(Hittable::Sphere(Sphere::new(&v3(0, 0, -3), fx(1), m)));
    let ray = Ray { origin: v3(0, 1, 0), direction: v3(0, 0, -1) };
    let c = get_ray_color(&ray, &world, 5, &mut rng);
    assert_eq!(c, black());
}

#[test]
fn face_normal_opposes_incoming_ray() {
    let ray = Ray { origin: v3(0, 0, 0), direction: v3(0, 0, -1) };
    let outward = v3(0, 0, 1);
    let front = HitRecord::from_hit(&v3(0, 0, -2), &ray, fx(2), &outward, gray());
    assert!(front.front_face);
    assert_eq!(front.normal, v3(0, 0, 1));

    let behind = HitRecord::from_hit(&v3(0, 0, -2), &ray, fx(2), &v3(0, 0, -1), gray());
    assert!(!behind.front_face);
    assert_eq!(behind.normal, v3(0, 0, 1)); // flipped to oppose the ray
}

#[test]
fn ray_at_walks_the_parameter() {
    let ray = Ray { origin: v3(1, 2, 3), direction: v3(0, 0, -2) };
    assert_eq!(ray.at(fx(0)), v3(1, 2, 3));
    assert_eq!(ray.at(fx(2)), v3(1, 2, -1));
    assert_eq!(Ray::new().at(fx(5)), v3(0, 0, 0));
}

#[test]
fn camera_center_ray_aims_at_the_target() {
    let camera = raytrace::trace::Camera::new(
        &v3(0, 0, 2),
        &v3(0, 0, 0),
        &v3(0, 1, 0),
        fx(90),
        fx(1),
        fx(0),
        fx(1),
    );
    assert_eq!(camera.lens_radius.raw, 0);
    let mut rng = rng_from(21);
    let ray = camera.get_ray(Fx { raw: 32768 }, Fx { raw: 32768 }, &mut rng);
    // Through the viewport center the ray leaves the origin toward -z,
    // with only rounding in the transverse components.
    assert_eq!(ray.origin, v3(0, 0, 2));
    assert!(ray.direction.z.raw < 0);
    assert!(ray.direction.x.raw.abs() < 400, "x = {}", ray.direction.x.raw);
    assert!(ray.direction.y.raw.abs() < 400, "y = {}", ray.direction.y.raw);
}
