//! Vector and ray algebra over the fixed-point scalar, together with the
//! random sampling helpers.  Each operation's contract gives its exact
//! result through the spec mirrors below, so geometry proofs can compute.

use vstd::prelude::*;

verus! {

use crate::fx::{
    Fx, SCALE, RAW_BOUND, PI_RAW, tdiv, neg_raw, fadd, fsub, fmul, fdiv, fneg, fclamp, fsqrt, fxr,
};
use crate::rng::draw_unit_raw;
use rand::rngs::StdRng;

/// 2 in raw units.
pub const TWO_RAW: i64 = 2 * SCALE;

/// 180 in raw units, for the degree-to-radian conversion.
pub const DEG_HALF_TURN_RAW: i64 = 180 * SCALE;

#[derive(Debug, Clone, Copy, PartialEq, Eq, Structural)]
pub struct Vec3 {
    pub x: Fx,
    pub y: Fx,
    pub z: Fx,
}

/// A location in space.
pub type Point = Vec3;

/// A linear-space color.
pub type Color = Vec3;

#[derive(Debug, Clone, Copy, PartialEq, Eq, Structural)]
pub struct Ray {
    pub origin: Vec3,
    pub direction: Vec3,
}

pub open spec fn spec_vec3(x: Fx, y: Fx, z: Fx) -> Vec3 {
    Vec3 { x: x, y: y, z: z }
}

pub open spec fn spec_add3(a: Vec3, b: Vec3) -> Vec3 {
    Vec3 { x: fadd(a.x, b.x), y: fadd(a.y, b.y), z: fadd(a.z, b.z) }
}

pub open spec fn spec_sub3(a: Vec3, b: Vec3) -> Vec3 {
    Vec3 { x: fsub(a.x, b.x), y: fsub(a.y, b.y), z: fsub(a.z, b.z) }
}

pub open spec fn spec_neg3(a: Vec3) -> Vec3 {
    Vec3 { x: fneg(a.x), y: fneg(a.y), z: fneg(a.z) }
}

/// Component-wise product, as colors filter each other.
pub open spec fn spec_mul3(a: Vec3, b: Vec3) -> Vec3 {
    Vec3 { x: fmul(a.x, b.x), y: fmul(a.y, b.y), z: fmul(a.z, b.z) }
}

pub open spec fn spec_scale(a: Vec3, t: Fx) -> Vec3 {
    Vec3 { x: fmul(a.x, t), y: fmul(a.y, t), z: fmul(a.z, t) }
}

/// Division by a scalar multiplies by its reciprocal, as the vector type
/// has always done.
pub open spec fn spec_div3(a: Vec3, t: Fx) -> Vec3 {
    spec_scale(a, fdiv(fxr(SCALE as int), t))
}

pub open spec fn spec_dot(u: Vec3, v: Vec3) -> Fx {
    fadd(fadd(fmul(u.x, v.x), fmul(u.y, v.y)), fmul(u.z, v.z))
}

pub open spec fn spec_cross(u: Vec3, v: Vec3) -> Vec3 {
    Vec3 {
        x: fsub(fmul(u.y, v.z), fmul(u.z, v.y)),
        y: fsub(fmul(u.z, v.x), fmul(u.x, v.z)),
        z: fsub(fmul(u.x, v.y), fmul(u.y, v.x)),
    }
}

pub open spec fn spec_len_sq(v: Vec3) -> Fx {
    fadd(fadd(fmul(v.x, v.x), fmul(v.y, v.y)), fmul(v.z, v.z))
}

pub open spec fn spec_length(v: Vec3) -> Fx {
    fsqrt(spec_len_sq(v))
}

pub open spec fn spec_unit(v: Vec3) -> Vec3 {
    spec_div3(v, spec_length(v))
}

pub open spec fn spec_ray_at(r: Ray, t: Fx) -> Vec3 {
    spec_add3(r.origin, spec_scale(r.direction, t))
}

/// The strict parametric interval test used by all intersection code.
pub open spec fn spec_in_range(t: Fx, t_min: Fx, t_max: Fx) -> bool {
    t.raw < t_max.raw && t.raw > t_min.raw
}

pub open spec fn spec_reflect(v: Vec3, normal: Vec3) -> Vec3 {
    spec_sub3(v, spec_scale(spec_scale(normal, fxr(TWO_RAW as int)), spec_dot(v, normal)))
}

pub open spec fn spec_refract(u: Vec3, normal: Vec3, etai_over_etat: Fx) -> Vec3 {
    let cos_theta = spec_dot(spec_neg3(u), normal);
    let r_out_parallel = spec_scale(spec_add3(u, spec_scale(normal, cos_theta)), etai_over_etat);
    let r_out_perp = spec_scale(
        normal,
        fneg(fsqrt(fsub(fxr(SCALE as int), spec_len_sq(r_out_parallel)))),
    );
    spec_add3(r_out_parallel, r_out_perp)
}

/// A unit-interval raw count: one uniform draw.
pub open spec fn spec_unit_draw(u: Fx) -> bool {
    0 <= u.raw < SCALE
}

/// A scalar inside the saturation range: what every operation returns.
pub open spec fn spec_bounded(a: Fx) -> bool {
    -RAW_BOUND <= a.raw <= RAW_BOUND
}

pub open spec fn spec_vec3_bounded(v: Vec3) -> bool {
    spec_bounded(v.x) && spec_bounded(v.y) && spec_bounded(v.z)
}

/// Negating an in-range vector negates its dot product.
pub proof fn lemma_dot_neg(u: Vec3, v: Vec3)
    requires
        spec_vec3_bounded(v),
    ensures
        spec_dot(u, spec_neg3(v)).raw == neg_raw(spec_dot(u, v).raw as int),
{
    assert(u.x.raw as int * (-(v.x.raw as int)) == -(u.x.raw as int * v.x.raw as int))
        by (nonlinear_arith);
    assert(u.y.raw as int * (-(v.y.raw as int)) == -(u.y.raw as int * v.y.raw as int))
        by (nonlinear_arith);
    assert(u.z.raw as int * (-(v.z.raw as int)) == -(u.z.raw as int * v.z.raw as int))
        by (nonlinear_arith);
}

impl Vec3 {
    pub fn new(e0: Fx, e1: Fx, e2: Fx) -> (r: Vec3)
        ensures
            r == spec_vec3(e0, e1, e2),
    {
        Vec3 { x: e0, y: e1, z: e2 }
    }

    /// A vector with three independent uniform draws in [0, 1).
    pub fn random(rng: &mut StdRng) -> (r: Vec3)
        ensures
            spec_unit_draw(r.x) && spec_unit_draw(r.y) && spec_unit_draw(r.z),
    {
        let e0 = random_float(rng);
        let e1 = random_float(rng);
        let e2 = random_float(rng);
        Vec3 { x: e0, y: e1, z: e2 }
    }

    /// A vector with three independent uniform draws in [min, max].
    pub fn random_in_range(rng: &mut StdRng, min: Fx, max: Fx) -> (r: Vec3)
        ensures
            -RAW_BOUND <= min.raw <= max.raw <= RAW_BOUND ==> min.raw <= r.x.raw <= max.raw
                && min.raw <= r.y.raw <= max.raw && min.raw <= r.z.raw <= max.raw,
    {
        let e0 = random_in_range(rng, min, max);
        let e1 = random_in_range(rng, min, max);
        let e2 = random_in_range(rng, min, max);
        Vec3 { x: e0, y: e1, z: e2 }
    }

    pub fn x(&self) -> (r: Fx)
        ensures
            r == self.x,
    {
        self.x
    }

    pub fn y(&self) -> (r: Fx)
        ensures
            r == self.y,
    {
        self.y
    }

    pub fn z(&self) -> (r: Fx)
        ensures
            r == self.z,
    {
        self.z
    }

    pub fn length(&self) -> (r: Fx)
        ensures
            r == spec_length(*self),
    {
        self.length_squared().sqrt()
    }

    pub fn length_squared(&self) -> (r: Fx)
        ensures
            r == spec_len_sq(*self),
    {
        self.x.mul(self.x).add(self.y.mul(self.y)).add(self.z.mul(self.z))
    }

    pub fn add(self, rhs: Vec3) -> (r: Vec3)
        ensures
            r == spec_add3(self, rhs),
    {
        Vec3 { x: self.x.add(rhs.x), y: self.y.add(rhs.y), z: self.z.add(rhs.z) }
    }

    pub fn add_assign(&mut self, rhs: Vec3)
        ensures
            *final(self) == spec_add3(*old(self), rhs),
    {
        self.x = self.x.add(rhs.x);
        self.y = self.y.add(rhs.y);
        self.z = self.z.add(rhs.z);
    }

    pub fn sub(self, rhs: Vec3) -> (r: Vec3)
        ensures
            r == spec_sub3(self, rhs),
    {
        Vec3 { x: self.x.sub(rhs.x), y: self.y.sub(rhs.y), z: self.z.sub(rhs.z) }
    }

    /// Component-wise product.
    pub fn mul(self, rhs: Vec3) -> (r: Vec3)
        ensures
            r == spec_mul3(self, rhs),
    {
        Vec3 { x: self.x.mul(rhs.x), y: self.y.mul(rhs.y), z: self.z.mul(rhs.z) }
    }

    /// Product with a scalar.
    pub fn scale(self, t: Fx) -> (r: Vec3)
        ensures
            r == spec_scale(self, t),
    {
        Vec3 { x: self.x.mul(t), y: self.y.mul(t), z: self.z.mul(t) }
    }

    pub fn mul_assign(&mut self, t: Fx)
        ensures
            *final(self) == spec_scale(*old(self), t),
    {
        self.x = self.x.mul(t);
        self.y = self.y.mul(t);
        self.z = self.z.mul(t);
    }

    /// Division by a scalar, via the reciprocal.
    pub fn div(self, t: Fx) -> (r: Vec3)
        ensures
            r == spec_div3(self, t),
    {
        self.scale(Fx { raw: SCALE }.div(t))
    }

    pub fn div_assign(&mut self, t: Fx)
        ensures
            *final(self) == spec_div3(*old(self), t),
    {
        self.mul_assign(Fx { raw: SCALE }.div(t));
    }

    pub fn neg(self) -> (r: Vec3)
        ensures
            r == spec_neg3(self),
    {
        Vec3 { x: self.x.neg(), y: self.y.neg(), z: self.z.neg() }
    }
}

impl Ray {
    /// The zero ray, the type's resting state.
    pub fn new() -> (r: Ray)
        ensures
            r == (Ray {
                origin: spec_vec3(fxr(0), fxr(0), fxr(0)),
                direction: spec_vec3(fxr(0), fxr(0), fxr(0)),
            }),
    {
        Ray {
            origin: Vec3 { x: Fx { raw: 0 }, y: Fx { raw: 0 }, z: Fx { raw: 0 } },
            direction: Vec3 { x: Fx { raw: 0 }, y: Fx { raw: 0 }, z: Fx { raw: 0 } },
        }
    }

    pub fn at(self, t: Fx) -> (r: Vec3)
        ensures
            r == spec_ray_at(self, t),
    {
        self.origin.add(self.direction.scale(t))
    }
}

pub fn to_unit_vector(v: &Vec3) -> (r: Vec3)
    ensures
        r == spec_unit(*v),
{
    v.div(v.length())
}

pub fn dot_product(u: &Vec3, v: &Vec3) -> (r: Fx)
    ensures
        r == spec_dot(*u, *v),
{
    u.x.mul(v.x).add(u.y.mul(v.y)).add(u.z.mul(v.z))
}

pub fn cross_product(u: &Vec3, v: &Vec3) -> (r: Vec3)
    ensures
        r == spec_cross(*u, *v),
{
    Vec3 {
        x: u.y.mul(v.z).sub(u.z.mul(v.y)),
        y: u.z.mul(v.x).sub(u.x.mul(v.z)),
        z: u.x.mul(v.y).sub(u.y.mul(v.x)),
    }
}

pub fn is_in_range(t: Fx, t_min: Fx, t_max: Fx) -> (r: bool)
    ensures
        r == spec_in_range(t, t_min, t_max),
{
    t.raw < t_max.raw && t.raw > t_min.raw
}

pub fn clamp(x: Fx, min: Fx, max: Fx) -> (r: Fx)
    ensures
        r == fclamp(x, min, max),
{
    x.clamp(min, max)
}

/// One uniform draw in [0, 1).
pub fn random_float(rng: &mut StdRng) -> (r: Fx)
    ensures
        spec_unit_draw(r),
{
    Fx { raw: draw_unit_raw(rng) }
}

/// One uniform draw in [min, max], one raw step of granularity.
pub fn random_in_range(rng: &mut StdRng, min: Fx, max: Fx) -> (r: Fx)
    ensures
        exists|u: Fx| spec_unit_draw(u) && r == fadd(min, fmul(fsub(max, min), u)),
        -RAW_BOUND <= min.raw <= max.raw <= RAW_BOUND ==> min.raw <= r.raw <= max.raw,
{
    let u = random_float(rng);
    let d = max.sub(min);
    let m = d.mul(u);
    proof {
        if -RAW_BOUND <= min.raw <= max.raw <= RAW_BOUND {
            assert(0 <= d.raw <= max.raw - min.raw);
            assert(0 <= d.raw as int * u.raw as int <= d.raw as int * (SCALE - 1))
                by (nonlinear_arith)
                requires
                    0 <= d.raw,
                    0 <= u.raw <= SCALE - 1,
            ;
            assert(tdiv(d.raw as int * u.raw as int, SCALE as int) <= d.raw) by (nonlinear_arith)
                requires
                    0 <= d.raw as int * u.raw as int <= d.raw as int * (SCALE - 1),
                    0 <= d.raw,
            ;
            assert(0 <= m.raw <= d.raw);
        }
    }
    let r = min.add(m);
    proof {
        let uu = u;
        assert(spec_unit_draw(uu) && r == fadd(min, fmul(fsub(max, min), uu)));
    }
    r
}

/// Rejection-sample a point inside the unit ball; after a bounded number of
/// failed draws the center is returned, so the search always ends.
pub fn random_in_unit_sphere(rng: &mut StdRng) -> (r: Vec3)
    ensures
        spec_len_sq(r).raw <= SCALE,
{
    let mut k: u32 = 0;
    while k < 64
        decreases 64 - k,
    {
        let point = Vec3::random_in_range(rng, Fx { raw: -SCALE }, Fx { raw: SCALE });
        if point.length_squared().raw > SCALE {
            k = k + 1;
        } else {
            return point;
        }
    }
    Vec3 { x: Fx { raw: 0 }, y: Fx { raw: 0 }, z: Fx { raw: 0 } }
}

/// Rejection-sample a point inside the unit disk in the xy-plane; after a
/// bounded number of failed draws the center is returned.
pub fn random_in_unit_disk(rng: &mut StdRng) -> (r: Vec3)
    ensures
        spec_len_sq(r).raw < SCALE,
        r.z.raw == 0,
{
    let mut k: u32 = 0;
    while k < 64
        decreases 64 - k,
    {
        let p = Vec3 {
            x: random_in_range(rng, Fx { raw: -SCALE }, Fx { raw: SCALE }),
            y: random_in_range(rng, Fx { raw: -SCALE }, Fx { raw: SCALE }),
            z: Fx { raw: 0 },
        };
        if p.length_squared().raw >= SCALE {
            k = k + 1;
        } else {
            return p;
        }
    }
    Vec3 { x: Fx { raw: 0 }, y: Fx { raw: 0 }, z: Fx { raw: 0 } }
}

/// A point in the unit ball, flipped onto the side of the given normal
/// whenever the draw points away from it.
pub fn random_in_unit_hemisphere(rng: &mut StdRng, normal: &Vec3) -> (r: Vec3)
    ensures
        exists|p: Vec3|
            (#[trigger] spec_len_sq(p)).raw <= SCALE && r == (if spec_dot(p, *normal).raw > 0 {
                p
            } else {
                spec_neg3(p)
            }),
{
    let in_unit_sphere = random_in_unit_sphere(rng);
    let keep = dot_product(&in_unit_sphere, normal).raw > 0;
    let r = if keep {
        in_unit_sphere
    } else {
        in_unit_sphere.neg()
    };
    proof {
        let p = in_unit_sphere;
        assert(spec_len_sq(p).raw <= SCALE && r == (if spec_dot(p, *normal).raw > 0 {
            p
        } else {
            spec_neg3(p)
        }));
    }
    r
}

pub fn reflect_around_normal(v: &Vec3, normal: &Vec3) -> (r: Vec3)
    ensures
        r == spec_reflect(*v, *normal),
{
    let d = dot_product(v, normal);
    v.sub(normal.scale(Fx { raw: TWO_RAW }).scale(d))
}

pub fn refract_around_normal(u: &Vec3, normal: &Vec3, etai_over_etat: Fx) -> (r: Vec3)
    ensures
        r == spec_refract(*u, *normal, etai_over_etat),
{
    let cos_theta = dot_product(&u.neg(), normal);
    let r_out_parallel = u.add(normal.scale(cos_theta)).scale(etai_over_etat);
    let r_out_perp = normal.scale(
        Fx { raw: SCALE }.sub(r_out_parallel.length_squared()).sqrt().neg(),
    );
    r_out_parallel.add(r_out_perp)
}

pub open spec fn spec_degrees_to_radians(theta: Fx) -> Fx {
    fdiv(fmul(theta, fxr(PI_RAW as int)), fxr(DEG_HALF_TURN_RAW as int))
}

pub fn degrees_to_radians(theta: Fx) -> (r: Fx)
    ensures
        r == spec_degrees_to_radians(theta),
{
    theta.mul(Fx { raw: PI_RAW }).div(Fx { raw: DEG_HALF_TURN_RAW })
}

} // verus!
