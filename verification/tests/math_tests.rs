use raytrace::fx::{Fx, SCALE, PI_RAW, HALF_PI_RAW};
use raytrace::math::{
    clamp, cross_product, degrees_to_radians, dot_product, is_in_range, reflect_around_normal,
    to_unit_vector, Vec3,
};
use raytrace::trace::pixel_bytes;
use rand::SeedableRng;
use raytrace::math::{
    random_in_range, random_in_unit_disk, random_in_unit_sphere,
};

fn fx(i: i64) -> Fx {
    Fx::from_int(i)
}

#[test]
fn fx_add_sub_mul_div_exact() {
    assert_eq!(fx(3).add(fx(4)), fx(7));
    assert_eq!(fx(3).sub(fx(10)), fx(-7));
    assert_eq!(Fx { raw: 98304 }.mul(fx(2)).raw, 196608); // 1.5 * 2 == 3
    assert_eq!(fx(1).div(fx(2)).raw, 32768); // 0.5
    assert_eq!(fx(5).neg(), fx(-5));
    assert_eq!(fx(7).min(fx(3)), fx(3));
}

#[test]
fn fx_division_by_zero_saturates() {
    let big = fx(1).div(fx(0));
    assert_eq!(big.raw, 0x4000_0000_0000_0000);
    let small = fx(-1).div(fx(0));
    assert_eq!(small.raw, -0x4000_0000_0000_0000);
    assert_eq!(fx(0).div(fx(0)).raw, 0);
}

#[test]
fn fx_sqrt_exact_and_total() {
    assert_eq!(fx(4).sqrt(), fx(2));
    assert_eq!(fx(0).sqrt().raw, 0);
    assert_eq!(fx(-9).sqrt().raw, 0); // total: negative input maps to zero
    assert_eq!(fx(2).sqrt().raw, 92681); // floor(sqrt(2) * 65536)
}

#[test]
fn fx_clamp_and_range() {
    assert_eq!(clamp(fx(5), fx(0), fx(3)), fx(3));
    assert_eq!(clamp(fx(-5), fx(0), fx(3)), fx(0));
    assert_eq!(clamp(fx(2), fx(0), fx(3)), fx(2));
    assert!(is_in_range(fx(2), fx(1), fx(3)));
    assert!(!is_in_range(fx(1), fx(1), fx(3))); // interval is open
    assert!(!is_in_range(fx(3), fx(1), fx(3)));
}

#[test]
fn trig_matches_known_values() {
    assert_eq!(Fx { raw: 0 }.sin().raw, 0);
    assert_eq!(Fx { raw: 0 }.cos().raw, SCALE);
    let s = Fx { raw: HALF_PI_RAW }.sin().raw;
    assert!((s - SCALE).abs() < 300, "sin(pi/2) = {s}");
    let c = Fx { raw: PI_RAW }.cos().raw;
    assert!((c + SCALE).abs() < 300, "cos(pi) = {c}");
    let t = Fx { raw: HALF_PI_RAW / 2 }.tan().raw;
    assert!((t - SCALE).abs() < 600, "tan(pi/4) = {t}");
    let rad = degrees_to_radians(fx(180)).raw;
    assert!((rad - PI_RAW).abs() < 4, "pi = {rad}");
}

#[test]
fn vec_ops_exact() {
    let a = Vec3::new(fx(1), fx(2), fx(3));
    let b = Vec3::new(fx(4), fx(5), fx(6));
    assert_eq!(a.add(b), Vec3::new(fx(5), fx(7), fx(9)));
    assert_eq!(b.sub(a), Vec3::new(fx(3), fx(3), fx(3)));
    assert_eq!(a.neg(), Vec3::new(fx(-1), fx(-2), fx(-3)));
    assert_eq!(dot_product(&a, &b), fx(32));
    assert_eq!(cross_product(&a, &b), Vec3::new(fx(-3), fx(6), fx(-3)));
    assert_eq!(a.length_squared(), fx(14));
    assert_eq!(Vec3::new(fx(3), fx(4), fx(0)).length(), fx(5));
    assert_eq!(a.scale(fx(2)), Vec3::new(fx(2), fx(4), fx(6)));
    assert_eq!(a.mul(b), Vec3::new(fx(4), fx(10), fx(18)));
}

#[test]
fn vec_assign_ops_match() {
    let mut a = Vec3::new(fx(1), fx(2), fx(3));
    a.add_assign(Vec3::new(fx(1), fx(1), fx(1)));
    assert_eq!(a, Vec3::new(fx(2), fx(3), fx(4)));
    a.mul_assign(fx(3));
    assert_eq!(a, Vec3::new(fx(6), fx(9), fx(12)));
    // Scalar division multiplies by the reciprocal, so 1/3 rounds down to
    // 21845 raw and each component lands one step under the exact value.
    a.div_assign(fx(3));
    assert_eq!(
        a,
        Vec3::new(Fx { raw: 131070 }, Fx { raw: 196605 }, Fx { raw: 262140 })
    );
}

#[test]
fn unit_vector_of_3_4_0() {
    let u = to_unit_vector(&Vec3::new(fx(3), fx(4), fx(0)));
    // 1/5 rounds to 13107 raw; components are 3x and 4x that.
    assert_eq!(u.x.raw, 39321);
    assert_eq!(u.y.raw, 52428);
    assert_eq!(u.z.raw, 0);
}

#[test]
fn reflect_across_floor() {
    let v = Vec3::new(fx(1), fx(-1), fx(0));
    let n = Vec3::new(fx(0), fx(1), fx(0));
    assert_eq!(reflect_around_normal(&v, &n), Vec3::new(fx(1), fx(1), fx(0)));
}

#[test]
fn pixel_bytes_gamma_and_clamp() {
    // (0.25, 1.0, 0.0) -> gamma (0.5, 1.0, 0.0) -> bytes (128, 255, 0)
    let c = Vec3::new(Fx { raw: 16384 }, fx(1), fx(0));
    assert_eq!(pixel_bytes(&c), (128, 255, 0));
    // over-range and negative channels are tolerated by the clamp
    let wild = Vec3::new(fx(9), fx(-3), fx(1));
    assert_eq!(pixel_bytes(&wild), (255, 0, 255));
}

#[test]
fn sampling_helpers_respect_their_ranges() {
    let mut rng = rand::rngs::StdRng::seed_from_u64(31);
    for _ in 0..200 {
        let r = random_in_range(&mut rng, fx(-3), fx(5));
        assert!(fx(-3).raw <= r.raw && r.raw <= fx(5).raw);
        let p = random_in_unit_sphere(&mut rng);
        assert!(p.length_squared().raw <= SCALE);
        let d = random_in_unit_disk(&mut rng);
        assert!(d.length_squared().raw < SCALE);
        assert_eq!(d.z.raw, 0);
    }
}

#[test]
fn spherical_draw_stays_near_the_unit_sphere() {
    let mut rng = rand::rngs::StdRng::seed_from_u64(32);
    for _ in 0..200 {
        let v = raytrace::trace::lambertian_random_in_unit_sphere(&mut rng);
        for ch in [v.x.raw, v.y.raw, v.z.raw] {
            assert!((-SCALE..=SCALE).contains(&ch));
        }
        // the draw lies on the sphere up to series truncation
        let lsq = v.length_squared().raw;
        assert!((lsq - SCALE).abs() < 2000, "length squared = {lsq}");
    }
}
