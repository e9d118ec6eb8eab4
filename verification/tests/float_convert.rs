//! Conversions between integers, singles and doubles, by their bits.

use geonative::float_bits::{is_at_most, is_finite, is_less, is_nan, is_zero};
use geonative::float_convert::{
    double_of_i64, double_of_single, double_of_u64, is_finite32, single_of,
};

#[test]
fn integers_become_the_nearest_double() {
    let edges = [
        0,
        1,
        3,
        (1 << 53) - 1,
        1 << 53,
        (1 << 53) + 1,
        (1 << 53) + 3,
        (1 << 54) + 2,
        (1 << 54) + 6,
        i64::MAX as u64,
        u64::MAX - 1024,
        u64::MAX - 1023,
        u64::MAX,
    ];
    for n in edges {
        assert_eq!(double_of_u64(n), (n as f64).to_bits(), "{n}");
        let m = n as i64;
        assert_eq!(double_of_i64(m), (m as f64).to_bits(), "{m}");
    }
    assert_eq!(double_of_u64(9_007_199_254_740_993), 9_007_199_254_740_992.0f64.to_bits());
    assert_eq!(double_of_i64(i64::MIN), (-9_223_372_036_854_775_808.0f64).to_bits());
}

#[test]
fn doubles_become_the_nearest_single() {
    let edges = [
        0.0,
        -0.0,
        1.0,
        0.1,
        -2.5,
        16777217.0,
        16777219.0,
        f32::MAX as f64,
        3.4028235677973366e38,
        3.4028235677973362e38,
        1e300,
        -1e300,
        1e-45,
        7.006492321624085e-46,
        7.006492321624086e-46,
        2.1019476964872256e-45,
        1.1754943508222875e-38,
        5e-324,
        f64::MAX,
    ];
    for x in edges {
        assert_eq!(single_of(f64::to_bits(x)), (x as f32).to_bits(), "{x:e}");
    }
}

#[test]
fn singles_come_back_through_doubles() {
    let mut b: u32 = 0;
    for _ in 0..4000 {
        if is_finite32(b) {
            let d = double_of_single(b);
            assert_eq!(d, (f32::from_bits(b) as f64).to_bits());
            assert_eq!(single_of(d), b);
        }
        b = b.wrapping_mul(1_664_525).wrapping_add(1_013_904_223);
    }
    assert!(!is_finite32(f32::INFINITY.to_bits()));
    assert!(!is_finite32(f32::NAN.to_bits()));
}

#[test]
fn doubles_are_compared_by_their_bits() {
    let xs = [f64::NEG_INFINITY, -2.0, -5e-324, -0.0, 0.0, 5e-324, 1.5, f64::INFINITY, f64::NAN];
    for a in xs {
        for b in xs {
            assert_eq!(is_less(a.to_bits(), b.to_bits()), a < b, "{a} {b}");
            assert_eq!(is_at_most(a.to_bits(), b.to_bits()), a <= b, "{a} {b}");
        }
        assert_eq!(is_nan(a.to_bits()), a.is_nan());
        assert_eq!(is_finite(a.to_bits()), a.is_finite());
        assert_eq!(is_zero(a.to_bits()), a == 0.0);
    }
}
