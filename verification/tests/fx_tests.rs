//! The fixed-point kernel: rounding directions, square roots and vectors.

use raytrace::fx::{div_ceil_i128, div_floor_i128, fx_div64, fx_mul64, isqrt};
use raytrace::ray::Ray;
use raytrace::vec3::Vec3;
use raytrace::SCALE;

#[test]
fn multiplication_and_division_round_toward_zero() {
    // 1.5 * 2.5 == 3.75
    assert_eq!(fx_mul64(98304, 163840), 245760);
    // 0.5 * 0.25 == 0.125
    assert_eq!(fx_mul64(SCALE / 2, SCALE / 4), SCALE / 8);
    // Truncation is symmetric about zero.
    assert_eq!(fx_mul64(3, 3), 0);
    assert_eq!(fx_mul64(-3, 3), 0);
    // 1.0 / 3.0, truncated.
    assert_eq!(fx_div64(SCALE, 3 * SCALE), 21845);
    assert_eq!(fx_div64(-SCALE, 3 * SCALE), -21845);
}

#[test]
fn floor_and_ceiling_division_disagree_only_off_multiples() {
    assert_eq!(div_floor_i128(7, 2), 3);
    assert_eq!(div_ceil_i128(7, 2), 4);
    assert_eq!(div_floor_i128(-7, 2), -4);
    assert_eq!(div_ceil_i128(-7, 2), -3);
    assert_eq!(div_floor_i128(8, 2), 4);
    assert_eq!(div_ceil_i128(8, 2), 4);
    assert_eq!(div_floor_i128(-8, 2), -4);
    assert_eq!(div_ceil_i128(-8, 2), -4);
}

#[test]
fn integer_square_root_is_the_floor() {
    assert_eq!(isqrt(0), 0);
    assert_eq!(isqrt(1), 1);
    assert_eq!(isqrt(2), 1);
    assert_eq!(isqrt(15), 3);
    assert_eq!(isqrt(16), 4);
    assert_eq!(isqrt(17), 4);
    assert_eq!(isqrt((1u128 << 64) - 1), u32::MAX as u64);
    assert_eq!(isqrt(1u128 << 64), 1 << 32);
}

#[test]
fn vector_operations_are_exact() {
    let a = Vec3::new(SCALE, -2 * SCALE, 3 * SCALE);
    let b = Vec3::new(SCALE / 2, SCALE, -SCALE);
    assert_eq!(a.add(&b), Vec3::new(3 * SCALE / 2, -SCALE, 2 * SCALE));
    assert_eq!(a.sub(&b), Vec3::new(SCALE / 2, -3 * SCALE, 4 * SCALE));
    assert_eq!(a.neg(), Vec3::new(-SCALE, 2 * SCALE, -3 * SCALE));
    // (1, -2, 3) . (0.5, 1, -1) == -4.5, in SCALE * SCALE raw units.
    assert_eq!(a.dot_raw(&b), -9 * (SCALE as i128) * (SCALE as i128) / 2);
    // |(0, 3, 4)| == 5.
    let v = Vec3::new(0, 3 * SCALE, 4 * SCALE);
    assert_eq!(v.length(), 5 * SCALE);
    assert_eq!(v.normalized(), Vec3::new(0, 3 * SCALE / 5, 4 * SCALE / 5));
    // The x axis crossed with the y axis is the z axis.
    let x = Vec3::new(SCALE, 0, 0);
    let y = Vec3::new(0, SCALE, 0);
    assert_eq!(x.cross(&y), Vec3::new(0, 0, SCALE));
    assert_eq!(y.cross(&x), Vec3::new(0, 0, -SCALE));
    // Componentwise color attenuation.
    let half = Vec3::new(SCALE / 2, SCALE / 2, SCALE / 2);
    assert_eq!(half.mul_comp(&half), Vec3::new(SCALE / 4, SCALE / 4, SCALE / 4));
}

#[test]
fn ray_at_walks_the_parametrized_line() {
    let r = Ray::with_direction(Vec3::new(SCALE, 2 * SCALE, 3 * SCALE), Vec3::new(SCALE / 2, 0, 0));
    assert_eq!(r.at(0), Vec3::new(SCALE, 2 * SCALE, 3 * SCALE));
    assert_eq!(r.at(2 * SCALE), Vec3::new(2 * SCALE, 2 * SCALE, 3 * SCALE));
    assert_eq!(r.at(-2 * SCALE), Vec3::new(0, 2 * SCALE, 3 * SCALE));
    let still = Ray::new(Vec3::new(5, 6, 7));
    assert_eq!(still.time, 0);
    assert_eq!(still.at(SCALE), Vec3::new(5, 6, 7));
}
