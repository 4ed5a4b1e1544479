//! Geometry, materials, camera and the recursive integrator.  The scene is a
//! closed tree of primitives: a sphere, or a group queried member by member
//! while the far clip shrinks to the closest hit found so far.

use vstd::prelude::*;

verus! {

use crate::fx::{Fx, SCALE, RAW_BOUND, TWO_PI_RAW, fadd, fsub, fmul, fdiv, fneg, fmin, fclamp,
    fsqrt, fxr, tan_raw, sin_full_raw, cos_full_raw, clamp_raw, add_raw, sub_raw, neg_raw,
    lemma_mul_unit_bound, lemma_sqrt_raw_bounds, lemma_square_nonneg, lemma_div_raw_monotone,
    lemma_mul_one, lemma_mul_unit_scale};
use crate::math::{
    Vec3, Ray, Point, Color, spec_vec3, spec_add3, spec_sub3, spec_neg3, spec_mul3, spec_scale,
    spec_div3, spec_dot, spec_cross, spec_len_sq, spec_unit, spec_ray_at,
    spec_in_range, spec_reflect, spec_refract, spec_unit_draw, spec_degrees_to_radians,
    spec_vec3_bounded, lemma_dot_neg,
    dot_product, cross_product, is_in_range, to_unit_vector, reflect_around_normal,
    refract_around_normal, random_float, random_in_range, degrees_to_radians, TWO_RAW,
};
use rand::rngs::StdRng;

/// 0.5 in raw units.
pub const HALF_RAW: i64 = 32768;

/// 0.7 in raw units, the green channel of the sky color.
pub const SKY_GREEN_RAW: i64 = 45875;

/// The near clip used by the integrator, about 0.001, which keeps a bounced
/// ray from hitting its own surface again.
pub const HIT_EPS_RAW: i64 = 66;

/// 0.999 in raw units, the clamp ceiling before byte conversion.
pub const BYTE_CLAMP_RAW: i64 = 65470;

#[derive(Debug, Clone, Copy, PartialEq, Eq, Structural)]
pub struct LambertianMaterial {
    pub albedo: Color,
}

#[derive(Debug, Clone, Copy, PartialEq, Eq, Structural)]
pub struct MetalMaterial {
    pub albedo: Color,
    pub fuzziness: Fx,
}

#[derive(Debug, Clone, Copy, PartialEq, Eq, Structural)]
pub struct DiaelectriMaterial {
    pub albedo: Color,
    pub ref_idx: Fx,
}

/// The closed set of scattering behaviours a surface can have.
#[derive(Debug, Clone, Copy, PartialEq, Eq, Structural)]
pub enum Material {
    Lambertian(LambertianMaterial),
    Metal(MetalMaterial),
    Dielectric(DiaelectriMaterial),
}

#[derive(Debug, Clone, Copy, PartialEq, Eq, Structural)]
pub struct HitRecord {
    pub point: Point,
    pub normal: Vec3,
    pub t: Fx,
    pub front_face: bool,
    pub material: Material,
}

#[derive(Debug, Clone, Copy, PartialEq, Eq, Structural)]
pub struct Sphere {
    pub center: Point,
    pub radius: Fx,
    pub material: Material,
}

/// A primitive of the scene: a sphere, or a whole sub-scene sharing the
/// same nearest-intersection capability.
pub enum Hittable {
    Sphere(Sphere),
    Group(Vec<Hittable>),
}

/// An ordered collection of primitives queried as one aggregate.
pub struct HittableCollection {
    pub hittables: Vec<Hittable>,
}

/// True when the incoming ray strikes the outward side of the surface.
pub open spec fn spec_front_face(ray: Ray, outward_normal: Vec3) -> bool {
    spec_dot(ray.direction, outward_normal).raw < 0
}

/// The stored normal always opposes the incoming ray.
pub open spec fn spec_oriented_normal(ray: Ray, outward_normal: Vec3) -> Vec3 {
    if spec_front_face(ray, outward_normal) {
        outward_normal
    } else {
        spec_neg3(outward_normal)
    }
}

pub open spec fn spec_hit_record(
    point: Point,
    ray: Ray,
    t: Fx,
    outward_normal: Vec3,
    material: Material,
) -> HitRecord {
    HitRecord {
        point: point,
        normal: spec_oriented_normal(ray, outward_normal),
        t: t,
        front_face: spec_front_face(ray, outward_normal),
        material: material,
    }
}

/// The record a sphere reports for a hit at parameter `t`: the outward
/// normal is `(point - center) / radius`, so a negative radius turns the
/// surface inside out.
pub open spec fn spec_calc_hit(s: Sphere, t: Fx, ray: Ray) -> HitRecord {
    let point = spec_ray_at(ray, t);
    spec_hit_record(point, ray, t, spec_div3(spec_sub3(point, s.center), s.radius), s.material)
}

/// The sphere intersection: the quadratic's discriminant decides, and the
/// smaller root is preferred when it lies strictly inside the interval.
/// The arithmetic is total, so there is no not-a-number case to reject; a
/// degenerate direction whose squared length rounds to zero is reported as
/// no intersection.
pub open spec fn spec_sphere_hit(s: Sphere, ray: Ray, t_min: Fx, t_max: Fx) -> Option<HitRecord> {
    let oc = spec_sub3(ray.origin, s.center);
    let a = spec_len_sq(ray.direction);
    let half_b = spec_dot(oc, ray.direction);
    let c = fsub(spec_len_sq(oc), fmul(s.radius, s.radius));
    let discriminant = fsub(fmul(half_b, half_b), fmul(a, c));
    if a.raw == 0 {
        None
    } else if discriminant.raw < 0 {
        None
    } else {
        let root = fsqrt(discriminant);
        let t1 = fdiv(fsub(fneg(half_b), root), a);
        let t2 = fdiv(fadd(fneg(half_b), root), a);
        if spec_in_range(t1, t_min, t_max) {
            Some(spec_calc_hit(s, t1, ray))
        } else if spec_in_range(t2, t_min, t_max) {
            Some(spec_calc_hit(s, t2, ray))
        } else {
            None
        }
    }
}

/// Nearest intersection over a primitive tree.
pub open spec fn spec_hit_tree(h: Hittable, ray: Ray, t_min: Fx, t_max: Fx) -> Option<HitRecord>
    decreases h,
{
    match h {
        Hittable::Sphere(s) => spec_sphere_hit(s, ray, t_min, t_max),
        Hittable::Group(v) => spec_hit_fold(v@, ray, t_min, t_max, Option::<HitRecord>::None),
    }
}

/// The aggregate sweep: each member is queried with the far clip shrunk to
/// the best hit so far, left to right.
pub open spec fn spec_hit_fold(
    s: Seq<Hittable>,
    ray: Ray,
    t_min: Fx,
    t_max: Fx,
    best: Option<HitRecord>,
) -> Option<HitRecord>
    decreases s,
{
    if s.len() == 0 {
        best
    } else {
        match spec_hit_tree(s[0], ray, t_min, t_max) {
            Some(h) => spec_hit_fold(s.drop_first(), ray, t_min, h.t, Some(h)),
            None => spec_hit_fold(s.drop_first(), ray, t_min, t_max, best),
        }
    }
}

/// Nearest intersection over a whole collection.
pub open spec fn spec_collection_hit(
    c: HittableCollection,
    ray: Ray,
    t_min: Fx,
    t_max: Fx,
) -> Option<HitRecord> {
    spec_hit_fold(c.hittables@, ray, t_min, t_max, Option::<HitRecord>::None)
}

impl HitRecord {
    pub fn from_hit(
        point: &Point,
        ray: &Ray,
        t: Fx,
        outward_normal: &Vec3,
        material: Material,
    ) -> (r: HitRecord)
        ensures
            r == spec_hit_record(*point, *ray, t, *outward_normal, material),
    {
        let mut result = HitRecord {
            point: *point,
            normal: Vec3 { x: Fx { raw: 0 }, y: Fx { raw: 0 }, z: Fx { raw: 0 } },
            t: t,
            front_face: false,
            material: material,
        };
        result.set_face_normal(ray, outward_normal);
        result
    }

    pub fn set_face_normal(&mut self, ray: &Ray, outward_normal: &Vec3)
        ensures
            *final(self) == (HitRecord {
                normal: spec_oriented_normal(*ray, *outward_normal),
                front_face: spec_front_face(*ray, *outward_normal),
                ..*old(self)
            }),
    {
        self.front_face = dot_product(&ray.direction, outward_normal).raw < 0;
        self.normal = if self.front_face {
            *outward_normal
        } else {
            outward_normal.neg()
        };
    }
}

impl Sphere {
    pub fn new(center: &Point, radius: Fx, material: Material) -> (r: Sphere)
        ensures
            r == (Sphere { center: *center, radius: radius, material: material }),
    {
        Sphere { center: *center, radius, material }
    }

    fn calc_hit(&self, t: Fx, ray: &Ray) -> (r: HitRecord)
        ensures
            r == spec_calc_hit(*self, t, *ray),
    {
        let point = ray.at(t);
        let outward_normal = point.sub(self.center).div(self.radius);
        HitRecord::from_hit(&point, ray, t, &outward_normal, self.material)
    }

    pub fn hit(&self, ray: &Ray, t_min: Fx, t_max: Fx) -> (r: Option<HitRecord>)
        ensures
            r == spec_sphere_hit(*self, *ray, t_min, t_max),
            spec_len_sq(ray.direction).raw == 0 ==> r is None,
    {
        let oc = ray.origin.sub(self.center);
        let a = ray.direction.length_squared();
        let half_b = dot_product(&oc, &ray.direction);
        let c = oc.length_squared().sub(self.radius.mul(self.radius));
        let discriminant = half_b.mul(half_b).sub(a.mul(c));

        if a.raw == 0 {
            None
        } else if discriminant.raw < 0 {
            None
        } else {
            let root = discriminant.sqrt();
            let t_root1 = half_b.neg().sub(root).div(a);
            let t_root2 = half_b.neg().add(root).div(a);
            if is_in_range(t_root1, t_min, t_max) {
                Some(self.calc_hit(t_root1, ray))
            } else if is_in_range(t_root2, t_min, t_max) {
                Some(self.calc_hit(t_root2, ray))
            } else {
                None
            }
        }
    }
}

impl Hittable {
    /// Wrap a collection so a whole scene can stand inside another.
    pub fn group(c: HittableCollection) -> (r: Hittable)
        ensures
            r == (Hittable::Group(c.hittables)),
    {
        Hittable::Group(c.hittables)
    }

    pub fn hit(&self, ray: &Ray, t_min: Fx, t_max: Fx) -> (r: Option<HitRecord>)
        ensures
            r == spec_hit_tree(*self, *ray, t_min, t_max),
        decreases *self,
    {
        match self {
            Hittable::Sphere(s) => s.hit(ray, t_min, t_max),
            Hittable::Group(v) => hit_list(v, ray, t_min, t_max),
        }
    }
}

/// Query every member, keeping the closest hit by shrinking the far clip.
fn hit_list(items: &Vec<Hittable>, ray: &Ray, t_min: Fx, t_max: Fx) -> (r: Option<HitRecord>)
    ensures
        r == spec_hit_fold(items@, *ray, t_min, t_max, Option::<HitRecord>::None),
    decreases items@,
{
    let mut closest_hit: Option<HitRecord> = None;
    let mut closest_hit_t = t_max;
    let n = items.len();
    let mut i: usize = 0;
    proof {
        assert(items@.skip(0) =~= items@);
    }
    while i < n
        invariant
            i <= n,
            n == items@.len(),
            spec_hit_fold(items@, *ray, t_min, t_max, Option::<HitRecord>::None) == spec_hit_fold(
                items@.skip(i as int),
                *ray,
                t_min,
                closest_hit_t,
                closest_hit,
            ),
        decreases n - i,
    {
        proof {
            assert(decreases_to!(items@ => items@[i as int]));
            assert(items@.skip(i as int).drop_first() =~= items@.skip(i as int + 1));
            assert(items@.skip(i as int)[0] == items@[i as int]);
        }
        match items[i].hit(ray, t_min, closest_hit_t) {
            Some(hit) => {
                closest_hit_t = hit.t;
                closest_hit = Some(hit);
            },
            None => {},
        }
        i = i + 1;
    }
    closest_hit
}

pub open spec fn spec_one() -> Fx {
    fxr(SCALE as int)
}

pub open spec fn spec_black() -> Color {
    spec_vec3(fxr(0), fxr(0), fxr(0))
}

pub open spec fn spec_white() -> Color {
    spec_vec3(spec_one(), spec_one(), spec_one())
}

pub open spec fn spec_light_blue() -> Color {
    spec_vec3(fxr(HALF_RAW as int), fxr(SKY_GREEN_RAW as int), spec_one())
}

/// A vector whose components all lie in [-1, 1]: what the spherical
/// direction sampler can produce.
pub open spec fn spec_unit_box(v: Vec3) -> bool {
    -SCALE <= v.x.raw <= SCALE && -SCALE <= v.y.raw <= SCALE && -SCALE <= v.z.raw <= SCALE
}

/// The albedo a material multiplies into the bounced radiance.
pub open spec fn spec_albedo(m: Material) -> Color {
    match m {
        Material::Lambertian(l) => l.albedo,
        Material::Metal(mm) => mm.albedo,
        Material::Dielectric(d) => d.albedo,
    }
}

/// The fuzz-free metal scatter: a pure mirror bounce, absorbed exactly when
/// the reflection leaves through the surface.
pub open spec fn spec_metal0_scatter(m: MetalMaterial, ray: Ray, hit: HitRecord) -> Option<Ray> {
    let dir = spec_reflect(ray.direction, hit.normal);
    if spec_dot(dir, hit.normal).raw > 0 {
        Some(Ray { origin: hit.point, direction: dir })
    } else {
        None
    }
}

/// Schlick's reflectance approximation.
pub open spec fn spec_schlick(cosine: Fx, ref_idx: Fx) -> Fx {
    let r0 = fdiv(fsub(spec_one(), ref_idx), fadd(spec_one(), ref_idx));
    let r0sq = fmul(r0, r0);
    let p = fsub(spec_one(), cosine);
    let p2 = fmul(p, p);
    let p4 = fmul(p2, p2);
    let p5 = fmul(p4, p);
    fadd(r0sq, fmul(fsub(spec_one(), r0sq), p5))
}

/// The dielectric bounce for a given uniform draw `u`: total internal
/// reflection and the Schlick probability pick the mirror branch, Snell's
/// decomposition the refracting one.
pub open spec fn spec_dielectric_ray(
    m: DiaelectriMaterial,
    ray: Ray,
    hit: HitRecord,
    u: Fx,
) -> Ray {
    let etai_over_etat = if hit.front_face {
        fdiv(spec_one(), m.ref_idx)
    } else {
        m.ref_idx
    };
    let direction = spec_unit(ray.direction);
    let cos_theta = fmin(spec_dot(spec_neg3(direction), hit.normal), spec_one());
    let sin_theta = fsqrt(fsub(spec_one(), fmul(cos_theta, cos_theta)));
    let reflect_prob = spec_schlick(cos_theta, etai_over_etat);
    let scattered_direction = if fmul(etai_over_etat, sin_theta).raw > SCALE || reflect_prob.raw
        > u.raw {
        spec_reflect(direction, hit.normal)
    } else {
        spec_refract(direction, hit.normal, etai_over_etat)
    };
    Ray { origin: hit.point, direction: scattered_direction }
}

/// The direction a diffuse bounce adds to the normal, for draws `a` (angle)
/// and `z` (height): a point on the unit sphere up to series truncation.
pub open spec fn spec_lambertian_dir(a: Fx, z: Fx) -> Vec3 {
    let r = fsqrt(fsub(spec_one(), fmul(z, z)));
    spec_vec3(fmul(r, fxr(cos_full_raw(a.raw as int))), fmul(r, fxr(sin_full_raw(a.raw as int))), z)
}

impl HittableCollection {
    pub fn new() -> (r: HittableCollection)
        ensures
            r.hittables@.len() == 0,
    {
        HittableCollection { hittables: Vec::new() }
    }

    pub fn add(&mut self, hittable: Hittable)
        ensures
            final(self).hittables@ == old(self).hittables@.push(hittable),
    {
        self.hittables.push(hittable);
    }

    pub fn hit(&self, ray: &Ray, t_min: Fx, t_max: Fx) -> (r: Option<HitRecord>)
        ensures
            r == spec_collection_hit(*self, *ray, t_min, t_max),
    {
        hit_list(&self.hittables, ray, t_min, t_max)
    }
}

/// Pure black, the absorbed-ray and exhausted-budget color.
pub fn black() -> (r: Color)
    ensures
        r == spec_black(),
{
    Vec3 { x: Fx { raw: 0 }, y: Fx { raw: 0 }, z: Fx { raw: 0 } }
}

/// Pure white, the dielectric albedo and one end of the sky gradient.
pub fn white() -> (r: Color)
    ensures
        r == spec_white(),
{
    Vec3 { x: Fx { raw: SCALE }, y: Fx { raw: SCALE }, z: Fx { raw: SCALE } }
}

/// The sky-blue end of the background gradient.
pub fn light_blue() -> (r: Color)
    ensures
        r == spec_light_blue(),
{
    Vec3 { x: Fx { raw: HALF_RAW }, y: Fx { raw: SKY_GREEN_RAW }, z: Fx { raw: SCALE } }
}

#[derive(Debug, Clone, Copy, PartialEq, Eq, Structural)]
pub struct Camera {
    pub origin: Point,
    pub u: Vec3,
    pub v: Vec3,
    pub w: Vec3,
    pub horizontal: Vec3,
    pub vertical: Vec3,
    pub lower_left_corner: Point,
    pub lens_radius: Fx,
}

/// The camera derived from its extrinsic parameters: an orthonormal-up-to-
/// rounding basis, a viewport scaled by the focus distance, and half the
/// aperture as the lens radius.
pub open spec fn spec_camera_new(
    look_from: Point,
    look_at: Point,
    vup: Vec3,
    vfov: Fx,
    aspect_ratio: Fx,
    aperture: Fx,
    focus_distance: Fx,
) -> Camera {
    let theta = spec_degrees_to_radians(vfov);
    let h = fxr(tan_raw(fdiv(theta, fxr(TWO_RAW as int)).raw as int));
    let viewport_height = fmul(fxr(TWO_RAW as int), h);
    let viewport_width = fmul(aspect_ratio, viewport_height);
    let w = spec_unit(spec_sub3(look_from, look_at));
    let u = spec_unit(spec_cross(vup, w));
    let v = spec_cross(w, u);
    let origin = look_from;
    let horizontal = spec_scale(spec_scale(u, viewport_width), focus_distance);
    let vertical = spec_scale(spec_scale(v, viewport_height), focus_distance);
    let lower_left_corner = spec_sub3(
        spec_sub3(
            spec_sub3(origin, spec_div3(horizontal, fxr(TWO_RAW as int))),
            spec_div3(vertical, fxr(TWO_RAW as int)),
        ),
        spec_scale(w, focus_distance),
    );
    Camera {
        origin: origin,
        u: u,
        v: v,
        w: w,
        horizontal: horizontal,
        vertical: vertical,
        lower_left_corner: lower_left_corner,
        lens_radius: fdiv(aperture, fxr(TWO_RAW as int)),
    }
}

/// The ray for normalized image coordinates (s, t) and a given lens-disk
/// draw: the draw scaled by the lens radius displaces the origin, and the
/// direction aims at the viewport point.
pub open spec fn spec_get_ray(cam: Camera, s: Fx, t: Fx, disk: Vec3) -> Ray {
    let rd = spec_scale(disk, cam.lens_radius);
    let offset = spec_add3(spec_scale(cam.u, rd.x), spec_scale(cam.v, rd.y));
    let origin = spec_add3(cam.origin, offset);
    let direction = spec_sub3(
        spec_add3(spec_add3(cam.lower_left_corner, spec_scale(cam.horizontal, s)), spec_scale(
            cam.vertical,
            t,
        )),
        origin,
    );
    Ray { origin: origin, direction: direction }
}

impl Camera {
    pub fn new(
        look_from: &Point,
        look_at: &Point,
        vup: &Vec3,
        vfov: Fx,
        aspect_ratio: Fx,
        aperture: Fx,
        focus_distance: Fx,
    ) -> (r: Camera)
        ensures
            r == spec_camera_new(
                *look_from,
                *look_at,
                *vup,
                vfov,
                aspect_ratio,
                aperture,
                focus_distance,
            ),
    {
        let two = Fx { raw: TWO_RAW };
        let theta = degrees_to_radians(vfov);
        let h = theta.div(two).tan();
        let viewport_height = two.mul(h);
        let viewport_width = aspect_ratio.mul(viewport_height);

        let w = to_unit_vector(&look_from.sub(*look_at));
        let u = to_unit_vector(&cross_product(vup, &w));
        let v = cross_product(&w, &u);

        let origin = *look_from;
        let horizontal = u.scale(viewport_width).scale(focus_distance);
        let vertical = v.scale(viewport_height).scale(focus_distance);
        let lower_left_corner = origin.sub(horizontal.div(two)).sub(vertical.div(two)).sub(
            w.scale(focus_distance),
        );

        Camera {
            origin,
            u,
            v,
            w,
            horizontal,
            vertical,
            lower_left_corner,
            lens_radius: aperture.div(two),
        }
    }

    /// Sample a ray through image coordinates (s, t); a lens of radius zero
    /// makes the result independent of the draw.
    pub fn get_ray(&self, s: Fx, t: Fx, rng: &mut StdRng) -> (r: Ray)
        ensures
            exists|p: Vec3|
                (#[trigger] spec_len_sq(p)).raw < SCALE && p.z.raw == 0 && r == spec_get_ray(
                    *self,
                    s,
                    t,
                    p,
                ),
            self.lens_radius.raw == 0 ==> r == spec_get_ray(
                *self,
                s,
                t,
                spec_vec3(fxr(0), fxr(0), fxr(0)),
            ),
    {
        let disk = crate::math::random_in_unit_disk(rng);
        let rd = disk.scale(self.lens_radius);
        let offset = self.u.scale(rd.x()).add(self.v.scale(rd.y()));
        let origin = self.origin.add(offset);
        let direction = self.lower_left_corner.add(self.horizontal.scale(s)).add(
            self.vertical.scale(t),
        ).sub(origin);
        let r = Ray { origin, direction };
        proof {
            assert(spec_len_sq(disk).raw < SCALE && disk.z.raw == 0 && r == spec_get_ray(
                *self,
                s,
                t,
                disk,
            ));
            if self.lens_radius.raw == 0 {
                assert(spec_scale(disk, self.lens_radius) == spec_scale(
                    spec_vec3(fxr(0), fxr(0), fxr(0)),
                    self.lens_radius,
                ));
            }
        }
        r
    }
}

/// A diffuse bounce direction: a point on the unit sphere, drawn from a
/// uniform angle and height.
pub fn lambertian_random_in_unit_sphere(rng: &mut StdRng) -> (r: Vec3)
    ensures
        exists|a: Fx, z: Fx|
            0 <= a.raw <= TWO_PI_RAW && -SCALE <= z.raw <= SCALE && r == (
            #[trigger] spec_lambertian_dir(a, z)),
        spec_unit_box(r),
{
    let a = random_in_range(rng, Fx { raw: 0 }, Fx { raw: TWO_PI_RAW });
    let z = random_in_range(rng, Fx { raw: -SCALE }, Fx { raw: SCALE });
    let radial = Fx { raw: SCALE }.sub(z.mul(z)).sqrt();
    let v = Vec3 { x: radial.mul(a.cos()), y: radial.mul(a.sin()), z: z };
    proof {
        lemma_mul_unit_bound(z.raw as int, z.raw as int);
        lemma_square_nonneg(z.raw as int);
        lemma_sqrt_raw_bounds(fsub(spec_one(), fmul(z, z)).raw as int);
        assert(-SCALE <= cos_full_raw(a.raw as int) <= SCALE);
        assert(-SCALE <= sin_full_raw(a.raw as int) <= SCALE);
        lemma_mul_unit_bound(radial.raw as int, cos_full_raw(a.raw as int));
        lemma_mul_unit_bound(radial.raw as int, sin_full_raw(a.raw as int));
        assert(v == spec_lambertian_dir(a, z));
    }
    v
}

impl LambertianMaterial {
    /// Diffuse scatter: never absorbs, tints by the albedo, and bounces
    /// along the normal nudged by a spherical draw.
    pub fn scatter(
        &self,
        _ray: &Ray,
        hit: &HitRecord,
        attenuation: &mut Color,
        rng: &mut StdRng,
    ) -> (r: Option<Ray>)
        ensures
            *final(attenuation) == self.albedo,
            r is Some,
            exists|d: Vec3|
                #[trigger] spec_unit_box(d) && r == Some(
                    Ray { origin: hit.point, direction: spec_add3(hit.normal, d) },
                ),
    {
        let d = lambertian_random_in_unit_sphere(rng);
        let scatter_direction = hit.normal.add(d);
        *attenuation = self.albedo;
        let scattered_ray = Ray { origin: hit.point, direction: scatter_direction };
        proof {
            assert(spec_unit_box(d) && Some(scattered_ray) == Some(
                Ray { origin: hit.point, direction: spec_add3(hit.normal, d) },
            ));
        }
        Some(scattered_ray)
    }
}

impl MetalMaterial {
    /// Specular scatter: reflect, perturb by fuzz, tint by the albedo, and
    /// absorb exactly when the perturbed direction points into the surface.
    /// With zero fuzz the bounce is the pure mirror reflection.
    pub fn scatter(
        &self,
        ray: &Ray,
        hit: &HitRecord,
        attenuation: &mut Color,
        rng: &mut StdRng,
    ) -> (r: Option<Ray>)
        ensures
            *final(attenuation) == self.albedo,
            exists|d: Vec3|
                #[trigger] spec_unit_box(d) && ({
                    let dir = spec_add3(
                        spec_reflect(ray.direction, hit.normal),
                        spec_scale(d, self.fuzziness),
                    );
                    r == (if spec_dot(dir, hit.normal).raw > 0 {
                        Some(Ray { origin: hit.point, direction: dir })
                    } else {
                        Option::<Ray>::None
                    })
                }),
            self.fuzziness.raw == 0 ==> r == spec_metal0_scatter(*self, *ray, *hit),
    {
        let reflected_direction = reflect_around_normal(&ray.direction, &hit.normal);
        let d = lambertian_random_in_unit_sphere(rng);
        let fuzzed_direction = reflected_direction.add(d.scale(self.fuzziness));
        let scattered_ray = Ray { origin: hit.point, direction: fuzzed_direction };
        *attenuation = self.albedo;
        let keep = dot_product(&scattered_ray.direction, &hit.normal).raw > 0;
        let r: Option<Ray> = if keep {
            Some(scattered_ray)
        } else {
            None
        };
        proof {
            let dir = spec_add3(
                spec_reflect(ray.direction, hit.normal),
                spec_scale(d, self.fuzziness),
            );
            assert(spec_unit_box(d) && r == (if spec_dot(dir, hit.normal).raw > 0 {
                Some(Ray { origin: hit.point, direction: dir })
            } else {
                Option::<Ray>::None
            }));
            if self.fuzziness.raw == 0 {
                assert(spec_scale(d, self.fuzziness) == spec_vec3(fxr(0), fxr(0), fxr(0)));
                assert(dir == spec_reflect(ray.direction, hit.normal));
            }
        }
        r
    }
}

impl DiaelectriMaterial {
    /// A refractive surface is only well-formed for a positive index; any
    /// other request is rejected at construction time.
    pub fn new(ref_idx: Fx) -> (r: Option<DiaelectriMaterial>)
        ensures
            r == (if ref_idx.raw > 0 {
                Some(DiaelectriMaterial { ref_idx: ref_idx, albedo: spec_white() })
            } else {
                Option::<DiaelectriMaterial>::None
            }),
    {
        if ref_idx.raw > 0 {
            Some(
                DiaelectriMaterial {
                    ref_idx,
                    albedo: Vec3 { x: Fx { raw: SCALE }, y: Fx { raw: SCALE }, z: Fx { raw: SCALE } },
                },
            )
        } else {
            None
        }
    }

    fn schlick(cosine: Fx, ref_idx: Fx) -> (r: Fx)
        ensures
            r == spec_schlick(cosine, ref_idx),
    {
        let one = Fx { raw: SCALE };
        let r0 = one.sub(ref_idx).div(one.add(ref_idx));
        let r0sq = r0.mul(r0);
        let p = one.sub(cosine);
        let p2 = p.mul(p);
        let p4 = p2.mul(p2);
        let p5 = p4.mul(p);
        r0sq.add(one.sub(r0sq).mul(p5))
    }

    /// Refractive scatter: never absorbs and never tints; the draw decides
    /// between reflection and refraction through Schlick's approximation.
    pub fn scatter(
        &self,
        ray: &Ray,
        hit: &HitRecord,
        attenuation: &mut Color,
        rng: &mut StdRng,
    ) -> (r: Option<Ray>)
        ensures
            *final(attenuation) == self.albedo,
            r is Some,
            exists|u: Fx|
                #[trigger] spec_unit_draw(u) && r == Some(spec_dielectric_ray(*self, *ray, *hit, u)),
    {
        let one = Fx { raw: SCALE };
        *attenuation = self.albedo;
        let etai_over_etat = if hit.front_face {
            one.div(self.ref_idx)
        } else {
            self.ref_idx
        };
        let direction = to_unit_vector(&ray.direction);
        let cos_theta = dot_product(&direction.neg(), &hit.normal).min(one);
        let sin_theta = one.sub(cos_theta.mul(cos_theta)).sqrt();
        let reflect_prob = DiaelectriMaterial::schlick(cos_theta, etai_over_etat);
        let u = random_float(rng);
        let scattered_direction = if etai_over_etat.mul(sin_theta).raw > SCALE || reflect_prob.raw
            > u.raw {
            reflect_around_normal(&direction, &hit.normal)
        } else {
            refract_around_normal(&direction, &hit.normal, etai_over_etat)
        };
        let scattered_ray = Ray { origin: hit.point, direction: scattered_direction };
        proof {
            assert(spec_unit_draw(u) && Some(scattered_ray) == Some(
                spec_dielectric_ray(*self, *ray, *hit, u),
            ));
        }
        Some(scattered_ray)
    }
}

impl Material {
    /// Dispatch to the variant's scattering rule.  Diffuse and refractive
    /// surfaces never absorb; a fuzz-free metal bounce is pinned exactly.
    pub fn scatter(
        &self,
        ray: &Ray,
        hit: &HitRecord,
        attenuation: &mut Color,
        rng: &mut StdRng,
    ) -> (r: Option<Ray>)
        ensures
            *final(attenuation) == spec_albedo(*self),
            self is Lambertian || self is Dielectric ==> r is Some,
            self matches Material::Metal(m) ==> (m.fuzziness.raw == 0 ==> r == spec_metal0_scatter(
                *m,
                *ray,
                *hit,
            )),
            r matches Some(s) ==> s.origin == hit.point,
            self matches Material::Lambertian(l) ==> (exists|d: Vec3|
                #[trigger] spec_unit_box(d) && r == Some(
                    Ray { origin: hit.point, direction: spec_add3(hit.normal, d) },
                )),
            self matches Material::Metal(m) ==> (exists|d: Vec3|
                #[trigger] spec_unit_box(d) && ({
                    let dir = spec_add3(
                        spec_reflect(ray.direction, hit.normal),
                        spec_scale(d, m.fuzziness),
                    );
                    r == (if spec_dot(dir, hit.normal).raw > 0 {
                        Some(Ray { origin: hit.point, direction: dir })
                    } else {
                        Option::<Ray>::None
                    })
                })),
            self matches Material::Dielectric(dm) ==> (exists|u: Fx|
                #[trigger] spec_unit_draw(u) && r == Some(
                    spec_dielectric_ray(*dm, *ray, *hit, u),
                )),
    {
        match self {
            Material::Lambertian(l) => l.scatter(ray, hit, attenuation, rng),
            Material::Metal(m) => m.scatter(ray, hit, attenuation, rng),
            Material::Dielectric(d) => d.scatter(ray, hit, attenuation, rng),
        }
    }
}

/// A material whose scatter is a pure function of the hit: a fuzz-free
/// metal.  Scenes built only of such surfaces shade deterministically.
pub open spec fn spec_material_det(m: Material) -> bool {
    m matches Material::Metal(mm) && mm.fuzziness.raw == 0
}

pub open spec fn spec_tree_det(h: Hittable) -> bool
    decreases h,
{
    match h {
        Hittable::Sphere(s) => spec_material_det(s.material),
        Hittable::Group(v) => spec_list_det(v@),
    }
}

pub open spec fn spec_list_det(s: Seq<Hittable>) -> bool
    decreases s,
{
    s.len() == 0 || (spec_tree_det(s[0]) && spec_list_det(s.drop_first()))
}

/// A scene whose every surface shades deterministically.
pub open spec fn spec_collection_det(c: HittableCollection) -> bool {
    spec_list_det(c.hittables@)
}

/// A color whose channels all lie in [0, 1].
pub open spec fn spec_unit_color(c: Color) -> bool {
    0 <= c.x.raw <= SCALE && 0 <= c.y.raw <= SCALE && 0 <= c.z.raw <= SCALE
}

pub open spec fn spec_tree_unit_albedos(h: Hittable) -> bool
    decreases h,
{
    match h {
        Hittable::Sphere(s) => spec_unit_color(spec_albedo(s.material)),
        Hittable::Group(v) => spec_list_unit_albedos(v@),
    }
}

pub open spec fn spec_list_unit_albedos(s: Seq<Hittable>) -> bool
    decreases s,
{
    s.len() == 0 || (spec_tree_unit_albedos(s[0]) && spec_list_unit_albedos(s.drop_first()))
}

/// A scene whose every albedo channel lies in [0, 1]: the physical range,
/// under which all computed radiance stays in [0, 1] too.
pub open spec fn spec_collection_unit_albedos(c: HittableCollection) -> bool {
    spec_list_unit_albedos(c.hittables@)
}

/// A hit found in a well-formed tree carries a unit-range albedo.
pub proof fn lemma_tree_hit_unit_albedos(h: Hittable, ray: Ray, t_min: Fx, t_max: Fx)
    requires
        spec_tree_unit_albedos(h),
    ensures
        spec_hit_tree(h, ray, t_min, t_max) matches Some(hr) ==> spec_unit_color(
            spec_albedo(hr.material),
        ),
    decreases h,
{
    match h {
        Hittable::Sphere(s) => {},
        Hittable::Group(v) => {
            lemma_fold_hit_unit_albedos(v@, ray, t_min, t_max, Option::<HitRecord>::None);
        },
    }
}

/// The fold preserves unit-range albedos from members into the result.
pub proof fn lemma_fold_hit_unit_albedos(
    s: Seq<Hittable>,
    ray: Ray,
    t_min: Fx,
    t_max: Fx,
    best: Option<HitRecord>,
)
    requires
        spec_list_unit_albedos(s),
        best matches Some(b) ==> spec_unit_color(spec_albedo(b.material)),
    ensures
        spec_hit_fold(s, ray, t_min, t_max, best) matches Some(h) ==> spec_unit_color(
            spec_albedo(h.material),
        ),
    decreases s,
{
    if s.len() > 0 {
        lemma_tree_hit_unit_albedos(s[0], ray, t_min, t_max);
        match spec_hit_tree(s[0], ray, t_min, t_max) {
            Some(h) => {
                lemma_fold_hit_unit_albedos(s.drop_first(), ray, t_min, h.t, Some(h));
            },
            None => {
                lemma_fold_hit_unit_albedos(s.drop_first(), ray, t_min, t_max, best);
            },
        }
    }
}

/// A hit found in a deterministic tree carries a deterministic material.
pub proof fn lemma_tree_hit_det(h: Hittable, ray: Ray, t_min: Fx, t_max: Fx)
    requires
        spec_tree_det(h),
    ensures
        spec_hit_tree(h, ray, t_min, t_max) matches Some(hr) ==> spec_material_det(hr.material),
    decreases h,
{
    match h {
        Hittable::Sphere(s) => {},
        Hittable::Group(v) => {
            lemma_fold_hit_det(v@, ray, t_min, t_max, Option::<HitRecord>::None);
        },
    }
}

/// The fold preserves deterministic materials from members into the result.
pub proof fn lemma_fold_hit_det(
    s: Seq<Hittable>,
    ray: Ray,
    t_min: Fx,
    t_max: Fx,
    best: Option<HitRecord>,
)
    requires
        spec_list_det(s),
        best matches Some(b) ==> spec_material_det(b.material),
    ensures
        spec_hit_fold(s, ray, t_min, t_max, best) matches Some(h) ==> spec_material_det(
            h.material,
        ),
    decreases s,
{
    if s.len() > 0 {
        lemma_tree_hit_det(s[0], ray, t_min, t_max);
        match spec_hit_tree(s[0], ray, t_min, t_max) {
            Some(h) => {
                lemma_fold_hit_det(s.drop_first(), ray, t_min, h.t, Some(h));
            },
            None => {
                lemma_fold_hit_det(s.drop_first(), ray, t_min, t_max, best);
            },
        }
    }
}

/// The radiance a deterministic scene assigns to a ray: what the integrator
/// computes when every bounce is a fuzz-free mirror.
pub open spec fn spec_ray_color_det(ray: Ray, world: HittableCollection, depth: u32) -> Color
    decreases depth,
{
    if depth == 0 {
        spec_black()
    } else {
        match spec_collection_hit(world, ray, fxr(HIT_EPS_RAW as int), fxr(RAW_BOUND as int)) {
            Some(h) => match h.material {
                Material::Metal(mm) => match spec_metal0_scatter(mm, ray, h) {
                    Some(sr) => spec_mul3(
                        mm.albedo,
                        spec_ray_color_det(sr, world, (depth - 1) as u32),
                    ),
                    None => spec_black(),
                },
                _ => spec_black(),
            },
            None => spec_background(ray),
        }
    }
}

/// The background gradient: white at the horizon blending to sky blue with
/// the ray direction's height.  The blend parameter is clamped into [0, 1],
/// so even a degenerate direction yields a valid sky color.
pub open spec fn spec_background(ray: Ray) -> Color {
    let unit_direction = spec_unit(ray.direction);
    let t = fclamp(fmul(fadd(unit_direction.y, spec_one()), fxr(HALF_RAW as int)), fxr(0), spec_one());
    spec_add3(spec_scale(spec_white(), fsub(spec_one(), t)), spec_scale(spec_light_blue(), t))
}

/// The background gradient is always a valid color: each channel lies in
/// [0, 1], because the blend parameter is clamped there.
pub proof fn lemma_background_unit(ray: Ray)
    ensures
        spec_unit_color(spec_background(ray)),
{
    let unit_direction = spec_unit(ray.direction);
    let t = fclamp(
        fmul(fadd(unit_direction.y, spec_one()), fxr(HALF_RAW as int)),
        fxr(0),
        spec_one(),
    );
    assert(0 <= t.raw <= SCALE);
    let s1 = fsub(spec_one(), t);
    assert(s1.raw == SCALE - t.raw);
    lemma_mul_one(s1.raw as int);
    lemma_mul_one(t.raw as int);
    lemma_mul_unit_scale(HALF_RAW as int, t.raw as int);
    lemma_mul_unit_scale(SKY_GREEN_RAW as int, t.raw as int);
}

/// What the integrator can return along a ray, whatever the draws come
/// out as: black once the budget is spent; the background past everything;
/// and after a hit, the albedo-filtered radiance of a scattered ray of the
/// material's stated shape - or black, exactly where that material's
/// scatter can absorb.
pub open spec fn spec_possible_ray_color(
    ray: Ray,
    world: HittableCollection,
    depth: u32,
    r: Color,
) -> bool
    decreases depth, 1int,
{
    if depth == 0 {
        r == spec_black()
    } else {
        match spec_collection_hit(world, ray, fxr(HIT_EPS_RAW as int), fxr(RAW_BOUND as int)) {
            Some(h) => spec_possible_bounce(ray, world, depth, h, r),
            None => r == spec_background(ray),
        }
    }
}

/// The colors one bounce off the surface record `h` can produce, for any
/// draws, with the given budget still unspent.
pub open spec fn spec_possible_bounce(
    ray: Ray,
    world: HittableCollection,
    depth: u32,
    h: HitRecord,
    r: Color,
) -> bool
    decreases depth, 0int,
{
    if depth == 0 {
        false
    } else {
        match h.material {
            Material::Lambertian(l) => exists|d: Vec3, c: Color|
                #![trigger spec_unit_box(d), spec_mul3(spec_albedo(h.material), c)]
                spec_unit_box(d) && spec_possible_ray_color(
                    Ray { origin: h.point, direction: spec_add3(h.normal, d) },
                    world,
                    (depth - 1) as u32,
                    c,
                ) && r == spec_mul3(spec_albedo(h.material), c),
            Material::Metal(m) => exists|d: Vec3|
                #[trigger] spec_unit_box(d) && ({
                    let dir = spec_add3(
                        spec_reflect(ray.direction, h.normal),
                        spec_scale(d, m.fuzziness),
                    );
                    if spec_dot(dir, h.normal).raw > 0 {
                        exists|c: Color|
                            spec_possible_ray_color(
                                Ray { origin: h.point, direction: dir },
                                world,
                                (depth - 1) as u32,
                                c,
                            ) && r == (#[trigger] spec_mul3(spec_albedo(h.material), c))
                    } else {
                        r == spec_black()
                    }
                }),
            Material::Dielectric(dm) => exists|u: Fx, c: Color|
                #![trigger spec_unit_draw(u), spec_mul3(spec_albedo(h.material), c)]
                spec_unit_draw(u) && spec_possible_ray_color(
                    spec_dielectric_ray(dm, ray, h, u),
                    world,
                    (depth - 1) as u32,
                    c,
                ) && r == spec_mul3(spec_albedo(h.material), c),
        }
    }
}

/// A diffuse bounce with known draw and bounced radiance is possible.
proof fn lemma_bounce_lambertian(
    ray: Ray,
    world: HittableCollection,
    depth: u32,
    h: HitRecord,
    l: LambertianMaterial,
    d: Vec3,
    c: Color,
    r: Color,
)
    requires
        depth > 0,
        h.material == Material::Lambertian(l),
        spec_unit_box(d),
        spec_possible_ray_color(
            Ray { origin: h.point, direction: spec_add3(h.normal, d) },
            world,
            (depth - 1) as u32,
            c,
        ),
        r == spec_mul3(spec_albedo(h.material), c),
    ensures
        spec_possible_bounce(ray, world, depth, h, r),
{
}

/// A metal bounce that leaves the surface, with known draw and bounced
/// radiance, is possible.
proof fn lemma_bounce_metal_scattered(
    ray: Ray,
    world: HittableCollection,
    depth: u32,
    h: HitRecord,
    m: MetalMaterial,
    d: Vec3,
    c: Color,
    r: Color,
)
    requires
        depth > 0,
        h.material == Material::Metal(m),
        spec_unit_box(d),
        spec_dot(
            spec_add3(spec_reflect(ray.direction, h.normal), spec_scale(d, m.fuzziness)),
            h.normal,
        ).raw > 0,
        spec_possible_ray_color(
            Ray {
                origin: h.point,
                direction: spec_add3(
                    spec_reflect(ray.direction, h.normal),
                    spec_scale(d, m.fuzziness),
                ),
            },
            world,
            (depth - 1) as u32,
            c,
        ),
        r == spec_mul3(spec_albedo(h.material), c),
    ensures
        spec_possible_bounce(ray, world, depth, h, r),
{
}

/// A metal bounce absorbed into the surface yields black.
proof fn lemma_bounce_metal_absorbed(
    ray: Ray,
    world: HittableCollection,
    depth: u32,
    h: HitRecord,
    m: MetalMaterial,
    d: Vec3,
    r: Color,
)
    requires
        depth > 0,
        h.material == Material::Metal(m),
        spec_unit_box(d),
        spec_dot(
            spec_add3(spec_reflect(ray.direction, h.normal), spec_scale(d, m.fuzziness)),
            h.normal,
        ).raw <= 0,
        r == spec_black(),
    ensures
        spec_possible_bounce(ray, world, depth, h, r),
{
}

/// A refractive bounce with known draw and bounced radiance is possible.
proof fn lemma_bounce_dielectric(
    ray: Ray,
    world: HittableCollection,
    depth: u32,
    h: HitRecord,
    dm: DiaelectriMaterial,
    u: Fx,
    c: Color,
    r: Color,
)
    requires
        depth > 0,
        h.material == Material::Dielectric(dm),
        spec_unit_draw(u),
        spec_possible_ray_color(spec_dielectric_ray(dm, ray, h, u), world, (depth - 1) as u32, c),
        r == spec_mul3(spec_albedo(h.material), c),
    ensures
        spec_possible_bounce(ray, world, depth, h, r),
{
}

/// A possible bounce off the reported hit is a possible radiance.
proof fn lemma_possible_from_bounce(
    ray: Ray,
    world: HittableCollection,
    depth: u32,
    h: HitRecord,
    r: Color,
)
    requires
        depth > 0,
        spec_collection_hit(world, ray, fxr(HIT_EPS_RAW as int), fxr(RAW_BOUND as int)) == Some(h),
        spec_possible_bounce(ray, world, depth, h, r),
    ensures
        spec_possible_ray_color(ray, world, depth, r),
{
}

/// Estimated radiance along a ray: black once the bounce budget is spent,
/// the scattered bounce filtered by the attenuation after a hit, and the
/// sky gradient past everything.
#[verifier::rlimit(100)]
pub fn get_ray_color(ray: &Ray, world: &HittableCollection, depth: u32, rng: &mut StdRng) -> (r:
    Color)
    ensures
        depth == 0 ==> r == spec_black(),
        depth > 0 && spec_collection_hit(
            *world,
            *ray,
            fxr(HIT_EPS_RAW as int),
            fxr(RAW_BOUND as int),
        ) is None ==> r == spec_background(*ray),
        spec_collection_det(*world) ==> r == spec_ray_color_det(*ray, *world, depth),
        spec_possible_ray_color(*ray, *world, depth, r),
        spec_collection_unit_albedos(*world) ==> spec_unit_color(r),
    decreases depth,
{
    if depth == 0 {
        return black();
    }

    match world.hit(ray, Fx { raw: HIT_EPS_RAW }, Fx { raw: RAW_BOUND }) {
        Some(hit) => {
            proof {
                if spec_collection_det(*world) {
                    lemma_fold_hit_det(
                        world.hittables@,
                        *ray,
                        fxr(HIT_EPS_RAW as int),
                        fxr(RAW_BOUND as int),
                        Option::<HitRecord>::None,
                    );
                    assert(spec_material_det(hit.material));
                }
                if spec_collection_unit_albedos(*world) {
                    lemma_fold_hit_unit_albedos(
                        world.hittables@,
                        *ray,
                        fxr(HIT_EPS_RAW as int),
                        fxr(RAW_BOUND as int),
                        Option::<HitRecord>::None,
                    );
                    assert(spec_unit_color(spec_albedo(hit.material)));
                }
            }
            let mut attenuation = white();
            match hit.material.scatter(ray, &hit, &mut attenuation, rng) {
                Some(scattered_ray) => {
                    let bounced = get_ray_color(&scattered_ray, world, depth - 1, rng);
                    let result = attenuation.mul(bounced);
                    proof {
                        match hit.material {
                            Material::Lambertian(l) => {
                                let d = choose|d: Vec3|
                                    #[trigger] spec_unit_box(d) && Some(scattered_ray) == Some(
                                        Ray {
                                            origin: hit.point,
                                            direction: spec_add3(hit.normal, d),
                                        },
                                    );
                                lemma_bounce_lambertian(
                                    *ray,
                                    *world,
                                    depth,
                                    hit,
                                    l,
                                    d,
                                    bounced,
                                    result,
                                );
                            },
                            Material::Metal(m) => {
                                let d = choose|d: Vec3|
                                    #[trigger] spec_unit_box(d) && ({
                                        let dir = spec_add3(
                                            spec_reflect(ray.direction, hit.normal),
                                            spec_scale(d, m.fuzziness),
                                        );
                                        Some(scattered_ray) == (if spec_dot(dir, hit.normal).raw
                                            > 0 {
                                            Some(Ray { origin: hit.point, direction: dir })
                                        } else {
                                            Option::<Ray>::None
                                        })
                                    });
                                lemma_bounce_metal_scattered(
                                    *ray,
                                    *world,
                                    depth,
                                    hit,
                                    m,
                                    d,
                                    bounced,
                                    result,
                                );
                            },
                            Material::Dielectric(dm) => {
                                let u = choose|u: Fx|
                                    #[trigger] spec_unit_draw(u) && Some(scattered_ray) == Some(
                                        spec_dielectric_ray(dm, *ray, hit, u),
                                    );
                                lemma_bounce_dielectric(
                                    *ray,
                                    *world,
                                    depth,
                                    hit,
                                    dm,
                                    u,
                                    bounced,
                                    result,
                                );
                            },
                        }
                        lemma_possible_from_bounce(*ray, *world, depth, hit, result);
                        if spec_collection_unit_albedos(*world) {
                            lemma_mul_unit_bound(
                                attenuation.x.raw as int,
                                bounced.x.raw as int,
                            );
                            lemma_mul_unit_bound(
                                attenuation.y.raw as int,
                                bounced.y.raw as int,
                            );
                            lemma_mul_unit_bound(
                                attenuation.z.raw as int,
                                bounced.z.raw as int,
                            );
                            assert(spec_unit_color(result));
                        }
                    }
                    result
                },
                None => {
                    let result = black();
                    proof {
                        match hit.material {
                            Material::Lambertian(_) => {
                                assert(false);
                            },
                            Material::Dielectric(_) => {
                                assert(false);
                            },
                            Material::Metal(m) => {
                                let d = choose|d: Vec3|
                                    #[trigger] spec_unit_box(d) && ({
                                        let dir = spec_add3(
                                            spec_reflect(ray.direction, hit.normal),
                                            spec_scale(d, m.fuzziness),
                                        );
                                        Option::<Ray>::None == (if spec_dot(dir, hit.normal).raw
                                            > 0 {
                                            Some(Ray { origin: hit.point, direction: dir })
                                        } else {
                                            Option::<Ray>::None
                                        })
                                    });
                                lemma_bounce_metal_absorbed(*ray, *world, depth, hit, m, d, result);
                                lemma_possible_from_bounce(*ray, *world, depth, hit, result);
                            },
                        }
                    }
                    result
                },
            }
        },
        None => {
            let one = Fx { raw: SCALE };
            let unit_direction = to_unit_vector(&ray.direction);
            let t = unit_direction.y().add(one).mul(Fx { raw: HALF_RAW }).clamp(Fx { raw: 0 }, one);
            let result = white().scale(one.sub(t)).add(light_blue().scale(t));
            proof {
                assert(result == spec_background(*ray));
                lemma_background_unit(*ray);
            }
            result
        },
    }
}

/// Gamma-2 correction: the square root of each linear channel.
pub open spec fn spec_gamma(c: Color) -> Color {
    spec_vec3(fsqrt(c.x), fsqrt(c.y), fsqrt(c.z))
}

/// One output channel: clamp into [0, 0.999] and scale to a byte.
pub open spec fn spec_color_byte(c: Fx) -> u8 {
    (clamp_raw(c.raw as int, 0, BYTE_CLAMP_RAW as int) / 256) as u8
}

/// The three bytes an image writer serializes for one pixel.
pub open spec fn spec_pixel_bytes(c: Color) -> (u8, u8, u8) {
    let g = spec_gamma(c);
    (spec_color_byte(g.x), spec_color_byte(g.y), spec_color_byte(g.z))
}

fn apply_gamma_correction(color: &Color) -> (r: Color)
    ensures
        r == spec_gamma(*color),
{
    Vec3 { x: color.x.sqrt(), y: color.y.sqrt(), z: color.z.sqrt() }
}

fn to_color_byte(c: Fx) -> (r: u8)
    ensures
        r == spec_color_byte(c),
{
    let clamped = c.clamp(Fx { raw: 0 }, Fx { raw: BYTE_CLAMP_RAW });
    ((clamped.raw as u64) / 256) as u8
}

/// The gamma-corrected byte triple for one pixel, ready to serialize.
pub fn pixel_bytes(pixel_color: &Color) -> (r: (u8, u8, u8))
    ensures
        r == spec_pixel_bytes(*pixel_color),
{
    let corrected_color = apply_gamma_correction(pixel_color);
    (
        to_color_byte(corrected_color.x),
        to_color_byte(corrected_color.y),
        to_color_byte(corrected_color.z),
    )
}

/// Law: the record a sphere reports is shaped as the data model promises.
/// Its point lies on the ray at its own t, its normal is the oriented
/// outward normal (point - center) / radius - so it is parallel to the
/// line from the center - it carries the sphere's material, and its t lies
/// strictly inside the queried interval.
pub proof fn lemma_sphere_hit_record_shape(s: Sphere, ray: Ray, t_min: Fx, t_max: Fx)
    ensures
        spec_sphere_hit(s, ray, t_min, t_max) matches Some(h) ==> {
            &&& h.point == spec_ray_at(ray, h.t)
            &&& h.normal == spec_oriented_normal(
                ray,
                spec_div3(spec_sub3(h.point, s.center), s.radius),
            )
            &&& h.material == s.material
            &&& spec_in_range(h.t, t_min, t_max)
        },
{
}

/// Law: the stored normal of a hit record opposes the incoming ray; the
/// sign test that builds the record guarantees it for every in-range
/// outward normal.
pub proof fn lemma_hit_record_normal_opposes(
    point: Point,
    ray: Ray,
    t: Fx,
    outward_normal: Vec3,
    material: Material,
)
    requires
        spec_vec3_bounded(outward_normal),
    ensures
        spec_dot(
            ray.direction,
            spec_hit_record(point, ray, t, outward_normal, material).normal,
        ).raw <= 0,
{
    if !spec_front_face(ray, outward_normal) {
        lemma_dot_neg(ray.direction, outward_normal);
    }
}

/// Shrinking the far clip of a sphere query cannot invent hits: a
/// narrow-interval hit is exactly the wide-interval hit, and where the
/// narrow query misses, any wide hit lies at or beyond the narrow clip.
proof fn lemma_sphere_hit_narrow_wide(sp: Sphere, ray: Ray, t_min: Fx, cur: Fx, t0: Fx)
    requires
        cur.raw <= t0.raw,
    ensures
        spec_sphere_hit(sp, ray, t_min, cur) matches Some(hr) ==> spec_sphere_hit(
            sp,
            ray,
            t_min,
            t0,
        ) == Some(hr),
        spec_sphere_hit(sp, ray, t_min, cur) matches Some(hr) ==> spec_in_range(hr.t, t_min, cur),
        spec_sphere_hit(sp, ray, t_min, cur) is None ==> (spec_sphere_hit(sp, ray, t_min, t0)
            matches Some(hw) ==> hw.t.raw >= cur.raw),
{
    let oc = spec_sub3(ray.origin, sp.center);
    let a = spec_len_sq(ray.direction);
    let half_b = spec_dot(oc, ray.direction);
    let c = fsub(spec_len_sq(oc), fmul(sp.radius, sp.radius));
    let discriminant = fsub(fmul(half_b, half_b), fmul(a, c));
    if discriminant.raw >= 0 {
        let root = fsqrt(discriminant);
        lemma_square_nonneg(ray.direction.x.raw as int);
        lemma_square_nonneg(ray.direction.y.raw as int);
        lemma_square_nonneg(ray.direction.z.raw as int);
        lemma_sqrt_raw_bounds(discriminant.raw as int);
        assert(a.raw >= 0);
        assert(root.raw >= 0);
        lemma_div_raw_monotone(
            sub_raw(neg_raw(half_b.raw as int), root.raw as int),
            add_raw(neg_raw(half_b.raw as int), root.raw as int),
            a.raw as int,
        );
        let t1 = fdiv(fsub(fneg(half_b), root), a);
        let t2 = fdiv(fadd(fneg(half_b), root), a);
        assert(t1.raw <= t2.raw);
    }
}

/// Shrinking the far clip cannot invent hits, for any primitive tree: a
/// narrow-interval hit lies at the same distance as the wide-interval hit,
/// and where the narrow query misses, any wide hit lies at or beyond the
/// narrow clip.
proof fn lemma_tree_narrow_wide(h: Hittable, ray: Ray, t_min: Fx, cur: Fx, t0: Fx)
    requires
        cur.raw <= t0.raw,
    ensures
        spec_hit_tree(h, ray, t_min, cur) matches Some(hr) ==> (spec_hit_tree(h, ray, t_min, t0)
            matches Some(hw) && hw.t.raw == hr.t.raw),
        spec_hit_tree(h, ray, t_min, cur) matches Some(hr) ==> spec_in_range(hr.t, t_min, cur),
        spec_hit_tree(h, ray, t_min, cur) is None ==> (spec_hit_tree(h, ray, t_min, t0) matches Some(
            hw,
        ) ==> hw.t.raw >= cur.raw),
    decreases h,
{
    match h {
        Hittable::Sphere(sp) => {
            lemma_sphere_hit_narrow_wide(sp, ray, t_min, cur, t0);
        },
        Hittable::Group(v) => {
            let narrow = spec_hit_fold(v@, ray, t_min, cur, Option::<HitRecord>::None);
            let wide = spec_hit_fold(v@, ray, t_min, t0, Option::<HitRecord>::None);
            lemma_fold_minimal(v@, ray, t_min, cur, cur, Option::<HitRecord>::None);
            lemma_fold_minimal(v@, ray, t_min, t0, t0, Option::<HitRecord>::None);
            assert(decreases_to!(h => h->Group_0));
            assert(decreases_to!(h->Group_0 => h->Group_0@));
            assert(v == h->Group_0);
            match narrow {
                Some(hr) => {
                    let i0 = choose|i: int|
                        0 <= i < v@.len() && ((#[trigger] spec_hit_tree(v@[i], ray, t_min, cur))
                            matches Some(hi) && hi.t.raw == hr.t.raw);
                    assert(decreases_to!(h->Group_0@ => h->Group_0@[i0]));
                    lemma_tree_narrow_wide(v@[i0], ray, t_min, cur, t0);
                    match wide {
                        None => {
                            assert(spec_hit_tree(v@[i0], ray, t_min, t0) is None);
                            assert(false);
                        },
                        Some(hw) => {
                            assert(hw.t.raw <= hr.t.raw);
                            let j0 = choose|i: int|
                                0 <= i < v@.len() && ((#[trigger] spec_hit_tree(
                                    v@[i],
                                    ray,
                                    t_min,
                                    t0,
                                )) matches Some(hj) && hj.t.raw == hw.t.raw);
                            assert(decreases_to!(h->Group_0@ => h->Group_0@[j0]));
                            lemma_tree_narrow_wide(v@[j0], ray, t_min, cur, t0);
                            if hw.t.raw < hr.t.raw {
                                match spec_hit_tree(v@[j0], ray, t_min, cur) {
                                    Some(hj_cur) => {
                                        // its wide distance equals its narrow one, yet no
                                        // member inside `cur` beats hr.t
                                        assert(hr.t.raw <= hj_cur.t.raw);
                                        assert(false);
                                    },
                                    None => {
                                        // a member missing inside `cur` only hits at or
                                        // past it, but hw.t < hr.t < cur
                                        assert(false);
                                    },
                                }
                            }
                        },
                    }
                },
                None => {
                    match wide {
                        Some(hw) => {
                            let j0 = choose|i: int|
                                0 <= i < v@.len() && ((#[trigger] spec_hit_tree(
                                    v@[i],
                                    ray,
                                    t_min,
                                    t0,
                                )) matches Some(hj) && hj.t.raw == hw.t.raw);
                            assert(decreases_to!(h->Group_0@ => h->Group_0@[j0]));
                            lemma_tree_narrow_wide(v@[j0], ray, t_min, cur, t0);
                            assert(spec_hit_tree(v@[j0], ray, t_min, cur) is None);
                        },
                        None => {},
                    }
                },
            }
        },
    }
}

/// The sweep, from any accumulator consistent with the interval, ends at
/// the minimum member hit distance of the whole interval.
proof fn lemma_fold_minimal(
    s: Seq<Hittable>,
    ray: Ray,
    t_min: Fx,
    t0: Fx,
    cur: Fx,
    best: Option<HitRecord>,
)
    requires
        cur.raw <= t0.raw,
        best is None ==> cur == t0,
        best matches Some(b) ==> cur == b.t && spec_in_range(b.t, t_min, t0),
    ensures
        spec_hit_fold(s, ray, t_min, cur, best) is None ==> best is None && (forall|i: int|
            0 <= i < s.len() ==> (#[trigger] spec_hit_tree(s[i], ray, t_min, t0)) is None),
        spec_hit_fold(s, ray, t_min, cur, best) matches Some(h) ==> {
            &&& (best matches Some(b) && b.t.raw == h.t.raw) || (exists|i: int|
                0 <= i < s.len() && ((#[trigger] spec_hit_tree(s[i], ray, t_min, t0)) matches Some(
                    hi,
                ) && hi.t.raw == h.t.raw))
            &&& forall|i: int|
                0 <= i < s.len() ==> ((#[trigger] spec_hit_tree(s[i], ray, t_min, t0)) matches Some(
                    hi,
                ) ==> h.t.raw <= hi.t.raw)
            &&& best matches Some(b) ==> h.t.raw <= b.t.raw
            &&& spec_in_range(h.t, t_min, t0)
        },
    decreases s,
{
    if s.len() > 0 {
        let rest = s.drop_first();
        lemma_tree_narrow_wide(s[0], ray, t_min, cur, t0);
        assert forall|i: int| 1 <= i < s.len() implies #[trigger] spec_hit_tree(
            s[i],
            ray,
            t_min,
            t0,
        ) == spec_hit_tree(rest[i - 1], ray, t_min, t0) by {
            assert(rest[i - 1] == s[i]);
        }
        match spec_hit_tree(s[0], ray, t_min, cur) {
            Some(h1) => {
                lemma_fold_minimal(rest, ray, t_min, t0, h1.t, Some(h1));
                match spec_hit_fold(s, ray, t_min, cur, best) {
                    Some(h) => {
                        if h.t.raw == h1.t.raw {
                            assert(0 <= 0 < s.len() && (spec_hit_tree(s[0], ray, t_min, t0)
                                matches Some(hi) && hi.t.raw == h.t.raw));
                        }
                    },
                    None => {},
                }
            },
            None => {
                lemma_fold_minimal(rest, ray, t_min, t0, cur, best);
                if best is None {
                    assert(spec_hit_tree(s[0], ray, t_min, t0) is None);
                }
            },
        }
    }
}

/// A member that reports no hit anywhere in the interval never changes
/// what the sweep returns.
proof fn lemma_fold_skip_missing(
    s: Seq<Hittable>,
    ray: Ray,
    t_min: Fx,
    t_max: Fx,
    cur: Fx,
    best: Option<HitRecord>,
    k: int,
)
    requires
        0 <= k < s.len(),
        spec_hit_tree(s[k], ray, t_min, t_max) is None,
        cur.raw <= t_max.raw,
    ensures
        spec_hit_fold(s.remove(k), ray, t_min, cur, best) == spec_hit_fold(
            s,
            ray,
            t_min,
            cur,
            best,
        ),
    decreases s,
{
    lemma_tree_narrow_wide(s[k], ray, t_min, cur, t_max);
    assert(spec_hit_tree(s[k], ray, t_min, cur) is None);
    if k == 0 {
        assert(s.remove(0) =~= s.drop_first());
    } else {
        assert(s.remove(k)[0] == s[0]);
        assert(s.remove(k).drop_first() =~= s.drop_first().remove(k - 1));
        assert(s.drop_first()[k - 1] == s[k]);
        match spec_hit_tree(s[0], ray, t_min, cur) {
            Some(h) => {
                lemma_tree_narrow_wide(s[0], ray, t_min, cur, t_max);
                lemma_fold_skip_missing(s.drop_first(), ray, t_min, t_max, h.t, Some(h), k - 1);
            },
            None => {
                lemma_fold_skip_missing(s.drop_first(), ray, t_min, t_max, cur, best, k - 1);
            },
        }
    }
}

/// Law: when one member yields no hit in the interval, the aggregate falls
/// through to the remaining members (or, with none left, to no hit at all,
/// which the integrator renders as the background).
pub proof fn lemma_collection_miss_falls_through(
    c: HittableCollection,
    rest_of: HittableCollection,
    ray: Ray,
    t_min: Fx,
    t_max: Fx,
    k: int,
)
    requires
        0 <= k < c.hittables@.len(),
        spec_hit_tree(c.hittables@[k], ray, t_min, t_max) is None,
        rest_of.hittables@ == c.hittables@.remove(k),
    ensures
        spec_collection_hit(rest_of, ray, t_min, t_max) == spec_collection_hit(
            c,
            ray,
            t_min,
            t_max,
        ),
{
    lemma_fold_skip_missing(
        c.hittables@,
        ray,
        t_min,
        t_max,
        t_max,
        Option::<HitRecord>::None,
        k,
    );
}

/// Law: the aggregate's hit is always the minimum-t hit among its members
/// inside (t_min, t_max) - whether the members are spheres or whole
/// sub-scenes - and the aggregate reports a hit exactly when some member
/// does.
pub proof fn lemma_collection_hit_minimal(c: HittableCollection, ray: Ray, t_min: Fx, t_max: Fx)
    ensures
        spec_collection_hit(c, ray, t_min, t_max) is None ==> forall|i: int|
            0 <= i < c.hittables@.len() ==> (#[trigger] spec_hit_tree(
                c.hittables@[i],
                ray,
                t_min,
                t_max,
            )) is None,
        spec_collection_hit(c, ray, t_min, t_max) matches Some(h) ==> {
            &&& exists|i: int|
                0 <= i < c.hittables@.len() && ((#[trigger] spec_hit_tree(
                    c.hittables@[i],
                    ray,
                    t_min,
                    t_max,
                )) matches Some(hi) && hi.t.raw == h.t.raw)
            &&& forall|i: int|
                0 <= i < c.hittables@.len() ==> ((#[trigger] spec_hit_tree(
                    c.hittables@[i],
                    ray,
                    t_min,
                    t_max,
                )) matches Some(hi) ==> h.t.raw <= hi.t.raw)
            &&& spec_in_range(h.t, t_min, t_max)
        },
{
    lemma_fold_minimal(c.hittables@, ray, t_min, t_max, t_max, Option::<HitRecord>::None);
}

} // verus!
