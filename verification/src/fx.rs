//! The scalar type of the renderer: a fixed-point number holding
//! `raw / SCALE`, with saturating arithmetic.  Every operation is total and
//! its exact result is stated at the raw-integer level, so the contracts of
//! the geometry and shading code above can pin results down precisely.

use vstd::prelude::*;

verus! {

/// Number of raw units per 1.0.
pub const SCALE: i64 = 65536;

/// Saturation bound on the raw representation (2^62).
pub const RAW_BOUND: i64 = 0x4000_0000_0000_0000;

/// Pi in raw units.
pub const PI_RAW: i64 = 205887;

/// Pi/2 in raw units.
pub const HALF_PI_RAW: i64 = 102944;

/// 2*Pi in raw units (PI_RAW + 2 * HALF_PI_RAW, so the quadrants meet).
pub const TWO_PI_RAW: i64 = 411775;

/// 1/6 in raw units, for the sine series.
pub const INV6_RAW: i64 = 10923;

/// 1/20 in raw units, for the sine series.
pub const INV20_RAW: i64 = 3277;

/// 1/42 in raw units, for the sine series.
pub const INV42_RAW: i64 = 1560;

/// 1/2 in raw units, for the cosine series.
pub const INV2_RAW: i64 = 32768;

/// 1/12 in raw units, for the cosine series.
pub const INV12_RAW: i64 = 5461;

/// 1/30 in raw units, for the cosine series.
pub const INV30_RAW: i64 = 2185;

/// A fixed-point scalar worth `raw / SCALE`.
#[derive(Debug, Clone, Copy, PartialEq, Eq, Structural)]
pub struct Fx {
    pub raw: i64,
}

/// Absolute value of a mathematical integer.
pub open spec fn absi(x: int) -> int {
    if x < 0 {
        -x
    } else {
        x
    }
}

/// Clamp a mathematical integer into the representable raw range.
pub open spec fn sat(x: int) -> int {
    if x > RAW_BOUND {
        RAW_BOUND as int
    } else if x < -(RAW_BOUND as int) {
        -(RAW_BOUND as int)
    } else {
        x
    }
}

/// Division truncated toward zero, as the scalar operations round.
pub open spec fn tdiv(p: int, d: int) -> int {
    if (p < 0) != (d < 0) {
        -(absi(p) / absi(d))
    } else {
        absi(p) / absi(d)
    }
}

pub open spec fn add_raw(a: int, b: int) -> int {
    sat(a + b)
}

pub open spec fn sub_raw(a: int, b: int) -> int {
    sat(a - b)
}

pub open spec fn neg_raw(a: int) -> int {
    sat(-a)
}

pub open spec fn mul_raw(a: int, b: int) -> int {
    sat(tdiv(a * b, SCALE as int))
}

/// Division by zero saturates in the direction of the dividend's sign;
/// there is no "not a number" in this arithmetic.
pub open spec fn div_raw(a: int, b: int) -> int {
    if b == 0 {
        if a > 0 {
            RAW_BOUND as int
        } else if a < 0 {
            -(RAW_BOUND as int)
        } else {
            0
        }
    } else {
        sat(tdiv(a * SCALE, b))
    }
}

pub open spec fn min_raw(a: int, b: int) -> int {
    if a < b {
        a
    } else {
        b
    }
}

pub open spec fn clamp_raw(x: int, lo: int, hi: int) -> int {
    if x < lo {
        lo
    } else if x > hi {
        hi
    } else {
        x
    }
}

pub open spec fn is_floor_sqrt(n: int, r: int) -> bool {
    0 <= r && r * r <= n && n < (r + 1) * (r + 1)
}

/// The integer square root, rounded down.
pub open spec fn floor_sqrt(n: int) -> int {
    choose|r: int| is_floor_sqrt(n, r)
}

/// Square root of a scalar: non-positive inputs map to zero, so the
/// operation is total and degenerate geometry stays well-defined.
pub open spec fn sqrt_raw(a: int) -> int {
    if a <= 0 {
        0
    } else {
        floor_sqrt(a * SCALE)
    }
}

/// A product of scalars from [-1, 1] stays in [-1, 1].
pub proof fn lemma_mul_unit_bound(a: int, b: int)
    requires
        absi(a) <= SCALE,
        absi(b) <= SCALE,
    ensures
        absi(mul_raw(a, b)) <= SCALE,
        0 <= a && 0 <= b ==> 0 <= mul_raw(a, b),
{
    lemma_abs_mul(a, b);
    assert(absi(a) * absi(b) <= SCALE * SCALE) by (nonlinear_arith)
        requires
            0 <= absi(a) <= SCALE,
            0 <= absi(b) <= SCALE,
    ;
    assert(absi(a * b) / (SCALE as int) <= SCALE) by (nonlinear_arith)
        requires
            0 <= absi(a * b) <= SCALE * SCALE,
    ;
}

/// Multiplying by one is the identity inside the raw range.
pub proof fn lemma_mul_one(p: int)
    requires
        -RAW_BOUND <= p <= RAW_BOUND,
    ensures
        mul_raw(SCALE as int, p) == p,
        mul_raw(p, SCALE as int) == p,
{
    lemma_abs_mul(SCALE as int, p);
    lemma_abs_mul(p, SCALE as int);
    vstd::arithmetic::div_mod::lemma_div_multiples_vanish(absi(p), SCALE as int);
    assert((SCALE as int) * absi(p) == absi(p) * (SCALE as int)) by (nonlinear_arith);
}

/// A factor from [0, 1] keeps a non-negative scalar at or under its scale.
pub proof fn lemma_mul_unit_scale(c: int, t: int)
    requires
        0 <= c <= SCALE,
        0 <= t <= RAW_BOUND,
    ensures
        0 <= mul_raw(c, t) <= t,
{
    assert(0 <= c * t <= (SCALE as int) * t) by (nonlinear_arith)
        requires
            0 <= c <= SCALE,
            0 <= t,
    ;
    vstd::arithmetic::div_mod::lemma_div_is_ordered(c * t, (SCALE as int) * t, SCALE as int);
    vstd::arithmetic::div_mod::lemma_div_multiples_vanish(t, SCALE as int);
    vstd::arithmetic::div_mod::lemma_div_pos_is_pos(c * t, SCALE as int);
}

/// Averaging a total of n unit-range terms - a product with the reciprocal
/// of n - lands back in the unit range.
pub proof fn lemma_avg_unit(c: int, n: int)
    requires
        1 <= n,
        n * SCALE <= RAW_BOUND,
        0 <= c <= n * SCALE,
    ensures
        0 <= mul_raw(c, div_raw(SCALE as int, n * SCALE)) <= SCALE,
{
    let b = n * SCALE;
    assert(b >= SCALE) by (nonlinear_arith)
        requires
            1 <= n,
            b == n * SCALE,
    ;
    let q = (SCALE as int) * SCALE / b;
    vstd::arithmetic::div_mod::lemma_div_pos_is_pos((SCALE as int) * SCALE, b);
    vstd::arithmetic::div_mod::lemma_fundamental_div_mod((SCALE as int) * SCALE, b);
    vstd::arithmetic::div_mod::lemma_mod_bound((SCALE as int) * SCALE, b);
    assert(b * q <= (SCALE as int) * SCALE);
    assert(q <= SCALE) by (nonlinear_arith)
        requires
            b * q <= (SCALE as int) * SCALE,
            b >= SCALE,
            q >= 0,
    ;
    assert(div_raw(SCALE as int, b) == q);
    assert(0 <= c * q <= (SCALE as int) * SCALE) by (nonlinear_arith)
        requires
            0 <= c <= b,
            0 <= q,
            b * q <= (SCALE as int) * SCALE,
    ;
    vstd::arithmetic::div_mod::lemma_div_is_ordered(c * q, (SCALE as int) * SCALE, SCALE as int);
    vstd::arithmetic::div_mod::lemma_div_multiples_vanish(SCALE as int, SCALE as int);
    vstd::arithmetic::div_mod::lemma_div_pos_is_pos(c * q, SCALE as int);
}

/// A square is never negative.
pub proof fn lemma_square_nonneg(a: int)
    ensures
        0 <= mul_raw(a, a),
{
    lemma_abs_mul(a, a);
    assert(0 <= a * a) by (nonlinear_arith);
}

/// The square root of a scalar in [0, 1] lies in [0, 1]; and it is never
/// negative.
pub proof fn lemma_sqrt_raw_bounds(a: int)
    ensures
        0 <= sqrt_raw(a),
        a <= 0x7fff_ffff_ffff_ffff ==> sqrt_raw(a) < 0x100_0000_0000,
        a <= SCALE ==> sqrt_raw(a) <= SCALE,
{
    if a > 0 {
        lemma_floor_sqrt_exists(a * SCALE);
        let r = floor_sqrt(a * SCALE);
        if a <= 0x7fff_ffff_ffff_ffff {
            assert(r < 0x100_0000_0000) by (nonlinear_arith)
                requires
                    0 <= r,
                    r * r <= a * SCALE,
                    a <= 0x7fff_ffff_ffff_ffff,
            ;
        }
        if a <= SCALE {
            assert(r <= SCALE) by (nonlinear_arith)
                requires
                    0 <= r,
                    r * r <= a * SCALE,
                    a <= SCALE,
            ;
        }
    }
}

/// Truncated division is monotone in the dividend.
pub proof fn lemma_tdiv_monotone(p1: int, p2: int, d: int)
    requires
        p1 <= p2,
        d > 0,
    ensures
        tdiv(p1, d) <= tdiv(p2, d),
{
    if p1 >= 0 {
        vstd::arithmetic::div_mod::lemma_div_is_ordered(p1, p2, d);
    } else if p2 < 0 {
        vstd::arithmetic::div_mod::lemma_div_is_ordered(-p2, -p1, d);
    } else {
        vstd::arithmetic::div_mod::lemma_div_pos_is_pos(-p1, d);
        vstd::arithmetic::div_mod::lemma_div_pos_is_pos(p2, d);
    }
}

/// Scalar division is monotone in the dividend for a non-negative divisor.
pub proof fn lemma_div_raw_monotone(n1: int, n2: int, b: int)
    requires
        n1 <= n2,
        b >= 0,
    ensures
        div_raw(n1, b) <= div_raw(n2, b),
{
    if b > 0 {
        lemma_tdiv_monotone(n1 * SCALE, n2 * SCALE, b);
    }
}

/// A scalar from a raw count (callers keep the count in range).
pub open spec fn fxr(i: int) -> Fx {
    Fx { raw: i as i64 }
}

pub open spec fn fadd(a: Fx, b: Fx) -> Fx {
    fxr(add_raw(a.raw as int, b.raw as int))
}

pub open spec fn fsub(a: Fx, b: Fx) -> Fx {
    fxr(sub_raw(a.raw as int, b.raw as int))
}

pub open spec fn fneg(a: Fx) -> Fx {
    fxr(neg_raw(a.raw as int))
}

pub open spec fn fmul(a: Fx, b: Fx) -> Fx {
    fxr(mul_raw(a.raw as int, b.raw as int))
}

pub open spec fn fdiv(a: Fx, b: Fx) -> Fx {
    fxr(div_raw(a.raw as int, b.raw as int))
}

pub open spec fn fmin(a: Fx, b: Fx) -> Fx {
    fxr(min_raw(a.raw as int, b.raw as int))
}

pub open spec fn fclamp(x: Fx, lo: Fx, hi: Fx) -> Fx {
    fxr(clamp_raw(x.raw as int, lo.raw as int, hi.raw as int))
}

pub open spec fn fsqrt(a: Fx) -> Fx {
    fxr(sqrt_raw(a.raw as int))
}

/// Truncated sine series on the first quadrant,
/// `x * (1 - x^2/6 * (1 - x^2/20 * (1 - x^2/42)))`, clamped to [-1, 1].
pub open spec fn sin_q_raw(x: int) -> int {
    let x2 = mul_raw(x, x);
    let t1 = sub_raw(SCALE as int, mul_raw(x2, INV42_RAW as int));
    let t2 = sub_raw(SCALE as int, mul_raw(mul_raw(x2, INV20_RAW as int), t1));
    let t3 = sub_raw(SCALE as int, mul_raw(mul_raw(x2, INV6_RAW as int), t2));
    clamp_raw(mul_raw(x, t3), -(SCALE as int), SCALE as int)
}

/// Truncated cosine series on the first quadrant,
/// `1 - x^2/2 * (1 - x^2/12 * (1 - x^2/30))`, clamped to [-1, 1].
pub open spec fn cos_q_raw(x: int) -> int {
    let x2 = mul_raw(x, x);
    let t1 = sub_raw(SCALE as int, mul_raw(x2, INV30_RAW as int));
    let t2 = sub_raw(SCALE as int, mul_raw(mul_raw(x2, INV12_RAW as int), t1));
    clamp_raw(sub_raw(SCALE as int, mul_raw(mul_raw(x2, INV2_RAW as int), t2)), -(SCALE as int), (
    SCALE as int))
}

/// Sine on a full turn: the argument is clamped into [0, 2*Pi] and folded
/// onto the first quadrant.
pub open spec fn sin_full_raw(x: int) -> int {
    let y = clamp_raw(x, 0, TWO_PI_RAW as int);
    if y <= HALF_PI_RAW {
        sin_q_raw(y)
    } else if y <= PI_RAW {
        sin_q_raw(PI_RAW - y)
    } else if y <= PI_RAW + HALF_PI_RAW {
        -sin_q_raw(y - PI_RAW)
    } else {
        -sin_q_raw(TWO_PI_RAW - y)
    }
}

/// Cosine on a full turn, folded like `sin_full_raw`.
pub open spec fn cos_full_raw(x: int) -> int {
    let y = clamp_raw(x, 0, TWO_PI_RAW as int);
    if y <= HALF_PI_RAW {
        cos_q_raw(y)
    } else if y <= PI_RAW {
        -cos_q_raw(PI_RAW - y)
    } else if y <= PI_RAW + HALF_PI_RAW {
        -cos_q_raw(y - PI_RAW)
    } else {
        cos_q_raw(TWO_PI_RAW - y)
    }
}

pub open spec fn tan_raw(x: int) -> int {
    div_raw(sin_full_raw(x), cos_full_raw(x))
}

pub proof fn lemma_floor_sqrt_exists(n: int)
    requires
        n >= 0,
    ensures
        is_floor_sqrt(n, floor_sqrt(n)),
    decreases n,
{
    if n == 0 {
        assert(is_floor_sqrt(0, 0));
    } else {
        lemma_floor_sqrt_exists(n - 1);
        let r = floor_sqrt(n - 1);
        if (r + 1) * (r + 1) <= n {
            assert(n - 1 < (r + 1) * (r + 1));
            assert(n == (r + 1) * (r + 1));
            assert((r + 1) * (r + 1) < (r + 2) * (r + 2)) by (nonlinear_arith)
                requires
                    r >= 0,
            ;
            assert(is_floor_sqrt(n, r + 1));
        } else {
            assert(is_floor_sqrt(n, r));
        }
    }
}

pub proof fn lemma_floor_sqrt_unique(n: int, r1: int, r2: int)
    requires
        is_floor_sqrt(n, r1),
        is_floor_sqrt(n, r2),
    ensures
        r1 == r2,
{
    assert(r1 == r2) by (nonlinear_arith)
        requires
            0 <= r1 && r1 * r1 <= n && n < (r1 + 1) * (r1 + 1),
            0 <= r2 && r2 * r2 <= n && n < (r2 + 1) * (r2 + 1),
    ;
}

/// The magnitude of a product is the product of the magnitudes.
proof fn lemma_abs_mul(a: int, b: int)
    ensures
        absi(a * b) == absi(a) * absi(b),
        (a * b < 0) <==> ((a < 0) != (b < 0)) && a != 0 && b != 0,
        (a * b == 0) <==> (a == 0 || b == 0),
{
    assert(absi(a * b) == absi(a) * absi(b) && ((a * b < 0) <==> ((a < 0) != (b < 0)) && a != 0
        && b != 0) && ((a * b == 0) <==> (a == 0 || b == 0))) by (nonlinear_arith);
}

/// Saturate a wide intermediate back into the raw range.
fn sat128(x: i128) -> (r: i64)
    ensures
        r as int == sat(x as int),
{
    if x > RAW_BOUND as i128 {
        RAW_BOUND
    } else if x < -(RAW_BOUND as i128) {
        -RAW_BOUND
    } else {
        x as i64
    }
}

impl Fx {
    /// The scalar 0.
    pub fn zero() -> (r: Fx)
        ensures
            r.raw == 0,
    {
        Fx { raw: 0 }
    }

    /// The scalar 1.
    pub fn one() -> (r: Fx)
        ensures
            r.raw == SCALE,
    {
        Fx { raw: SCALE }
    }

    /// The scalar `i`, saturated into range.
    pub fn from_int(i: i64) -> (r: Fx)
        ensures
            r.raw == sat(i * SCALE),
    {
        proof {
            assert(-(0x8000_0000_0000_0000i128 as int) * (SCALE as int) <= (i as int) * (
            SCALE as int) <= 0x8000_0000_0000_0000i128 as int * (SCALE as int))
                by (nonlinear_arith)
                requires
                    -(0x8000_0000_0000_0000i128 as int) <= i as int <= 0x8000_0000_0000_0000i128
                        as int,
            ;
        }
        Fx { raw: sat128(i as i128 * SCALE as i128) }
    }

    pub fn add(self, rhs: Fx) -> (r: Fx)
        ensures
            r.raw == add_raw(self.raw as int, rhs.raw as int),
    {
        Fx { raw: sat128(self.raw as i128 + rhs.raw as i128) }
    }

    pub fn sub(self, rhs: Fx) -> (r: Fx)
        ensures
            r.raw == sub_raw(self.raw as int, rhs.raw as int),
    {
        Fx { raw: sat128(self.raw as i128 - rhs.raw as i128) }
    }

    pub fn neg(self) -> (r: Fx)
        ensures
            r.raw == neg_raw(self.raw as int),
    {
        Fx { raw: sat128(-(self.raw as i128)) }
    }

    pub fn mul(self, rhs: Fx) -> (r: Fx)
        ensures
            r.raw == mul_raw(self.raw as int, rhs.raw as int),
    {
        let a: i128 = self.raw as i128;
        let b: i128 = rhs.raw as i128;
        let neg: bool = (a < 0) != (b < 0);
        let ma: u128 = (if a < 0 {
            -a
        } else {
            a
        }) as u128;
        let mb: u128 = (if b < 0 {
            -b
        } else {
            b
        }) as u128;
        proof {
            assert(ma * mb <= 0x8000_0000_0000_0000u128 * 0x8000_0000_0000_0000u128)
                by (nonlinear_arith)
                requires
                    ma <= 0x8000_0000_0000_0000u128,
                    mb <= 0x8000_0000_0000_0000u128,
            ;
            lemma_abs_mul(a as int, b as int);
        }
        let q: u128 = (ma * mb) / (SCALE as u128);
        let qs: i64 = if q > RAW_BOUND as u128 {
            RAW_BOUND
        } else {
            q as i64
        };
        let rr: i64 = if neg {
            -qs
        } else {
            qs
        };
        Fx { raw: rr }
    }

    pub fn div(self, rhs: Fx) -> (r: Fx)
        ensures
            r.raw == div_raw(self.raw as int, rhs.raw as int),
    {
        if rhs.raw == 0 {
            if self.raw > 0 {
                return Fx { raw: RAW_BOUND };
            } else if self.raw < 0 {
                return Fx { raw: -RAW_BOUND };
            } else {
                return Fx { raw: 0 };
            }
        }
        let a: i128 = self.raw as i128;
        let b: i128 = rhs.raw as i128;
        let neg: bool = (a < 0) != (b < 0);
        let ma: u128 = (if a < 0 {
            -a
        } else {
            a
        }) as u128;
        let mb: u128 = (if b < 0 {
            -b
        } else {
            b
        }) as u128;
        proof {
            assert(ma * (SCALE as u128) <= 0x8000_0000_0000_0000u128 * (SCALE as u128))
                by (nonlinear_arith)
                requires
                    ma <= 0x8000_0000_0000_0000u128,
            ;
        }
        let num: u128 = ma * (SCALE as u128);
        proof {
            lemma_abs_mul(a as int, SCALE as int);
            assert(absi(a as int * SCALE as int) == ma * (SCALE as u128));
            lemma_abs_mul(a as int * SCALE as int, 1);
        }
        let q: u128 = num / mb;
        let qs: i64 = if q > RAW_BOUND as u128 {
            RAW_BOUND
        } else {
            q as i64
        };
        let rr: i64 = if neg {
            -qs
        } else {
            qs
        };
        proof {
            assert(tdiv(a as int * SCALE, b as int) == if neg {
                -((ma * (SCALE as u128)) as int / mb as int)
            } else {
                (ma * (SCALE as u128)) as int / mb as int
            });
        }
        Fx { raw: rr }
    }

    /// The smaller of two scalars.
    pub fn min(self, rhs: Fx) -> (r: Fx)
        ensures
            r.raw == min_raw(self.raw as int, rhs.raw as int),
    {
        if self.raw < rhs.raw {
            self
        } else {
            rhs
        }
    }

    /// Clamp into [lo, hi] (callers pass lo <= hi).
    pub fn clamp(self, lo: Fx, hi: Fx) -> (r: Fx)
        ensures
            r.raw == clamp_raw(self.raw as int, lo.raw as int, hi.raw as int),
    {
        if self.raw < lo.raw {
            lo
        } else if self.raw > hi.raw {
            hi
        } else {
            self
        }
    }

    fn sin_q(self) -> (r: Fx)
        ensures
            r.raw == sin_q_raw(self.raw as int),
    {
        let one = Fx { raw: SCALE };
        let x2 = self.mul(self);
        let t1 = one.sub(x2.mul(Fx { raw: INV42_RAW }));
        let t2 = one.sub(x2.mul(Fx { raw: INV20_RAW }).mul(t1));
        let t3 = one.sub(x2.mul(Fx { raw: INV6_RAW }).mul(t2));
        self.mul(t3).clamp(Fx { raw: -SCALE }, one)
    }

    fn cos_q(self) -> (r: Fx)
        ensures
            r.raw == cos_q_raw(self.raw as int),
    {
        let one = Fx { raw: SCALE };
        let x2 = self.mul(self);
        let t1 = one.sub(x2.mul(Fx { raw: INV30_RAW }));
        let t2 = one.sub(x2.mul(Fx { raw: INV12_RAW }).mul(t1));
        one.sub(x2.mul(Fx { raw: INV2_RAW }).mul(t2)).clamp(Fx { raw: -SCALE }, one)
    }

    /// Sine; arguments are folded into [0, 2*Pi] first.
    pub fn sin(self) -> (r: Fx)
        ensures
            r.raw == sin_full_raw(self.raw as int),
    {
        let y = self.clamp(Fx { raw: 0 }, Fx { raw: TWO_PI_RAW });
        if y.raw <= HALF_PI_RAW {
            y.sin_q()
        } else if y.raw <= PI_RAW {
            Fx { raw: PI_RAW - y.raw }.sin_q()
        } else if y.raw <= PI_RAW + HALF_PI_RAW {
            Fx { raw: y.raw - PI_RAW }.sin_q().neg()
        } else {
            Fx { raw: TWO_PI_RAW - y.raw }.sin_q().neg()
        }
    }

    /// Cosine; arguments are folded into [0, 2*Pi] first.
    pub fn cos(self) -> (r: Fx)
        ensures
            r.raw == cos_full_raw(self.raw as int),
    {
        let y = self.clamp(Fx { raw: 0 }, Fx { raw: TWO_PI_RAW });
        if y.raw <= HALF_PI_RAW {
            y.cos_q()
        } else if y.raw <= PI_RAW {
            Fx { raw: PI_RAW - y.raw }.cos_q().neg()
        } else if y.raw <= PI_RAW + HALF_PI_RAW {
            Fx { raw: y.raw - PI_RAW }.cos_q().neg()
        } else {
            Fx { raw: TWO_PI_RAW - y.raw }.cos_q()
        }
    }

    /// Tangent, as the ratio of the folded sine and cosine.
    pub fn tan(self) -> (r: Fx)
        ensures
            r.raw == tan_raw(self.raw as int),
    {
        self.sin().div(self.cos())
    }

    /// Fixed-point square root, rounded down to the nearest raw unit.
    pub fn sqrt(self) -> (r: Fx)
        ensures
            r.raw == sqrt_raw(self.raw as int),
    {
        if self.raw <= 0 {
            return Fx { raw: 0 };
        }
        let n: u128 = (self.raw as u128) * (SCALE as u128);
        let mut lo: u128 = 0;
        let mut hi: u128 = 0x100_0000_0000;
        proof {
            assert(hi * hi > n) by (nonlinear_arith)
                requires
                    hi == 0x100_0000_0000u128,
                    n < 0x8000_0000_0000_0000u128 * 0x1_0000u128,
            ;
        }
        while lo + 1 < hi
            invariant
                lo < hi,
                hi <= 0x100_0000_0000,
                lo * lo <= n,
                n < hi * hi,
            decreases hi - lo,
        {
            let mid: u128 = lo + (hi - lo) / 2;
            proof {
                assert(mid * mid <= 0x100_0000_0000u128 * 0x100_0000_0000u128)
                    by (nonlinear_arith)
                    requires
                        mid <= 0x100_0000_0000u128,
                ;
            }
            if mid * mid <= n {
                lo = mid;
            } else {
                hi = mid;
            }
        }
        proof {
            assert(hi == lo + 1);
            assert(is_floor_sqrt(n as int, lo as int));
            lemma_floor_sqrt_exists(n as int);
            lemma_floor_sqrt_unique(n as int, lo as int, floor_sqrt(n as int));
        }
        Fx { raw: lo as i64 }
    }
}

} // verus!
