use raytrace::scalar::Scalar;

fn s(x: f32) -> Scalar {
    Scalar::from_bits(x.to_bits())
}

fn f(x: Scalar) -> f32 {
    f32::from_bits(x.to_bits())
}

fn samples() -> Vec<f32> {
    vec![
        0.0,
        -0.0,
        1.0,
        -1.0,
        0.5,
        -0.5,
        1.0e-40,
        -1.0e-40,
        3.25,
        -3.25,
        255.99,
        1.0e30,
        -1.0e30,
        f32::MAX,
        -f32::MAX,
        f32::MIN_POSITIVE,
        f32::INFINITY,
        f32::NEG_INFINITY,
        f32::NAN,
        -f32::NAN,
    ]
}

#[test]
fn comparisons_agree_with_the_hardware() {
    for &a in samples().iter() {
        for &b in samples().iter() {
            assert_eq!(s(a).lt(s(b)), a < b, "{} < {}", a, b);
            assert_eq!(s(a).le(s(b)), a <= b, "{} <= {}", a, b);
            assert_eq!(s(a).gt(s(b)), a > b, "{} > {}", a, b);
            assert_eq!(s(a).ge(s(b)), a >= b, "{} >= {}", a, b);
            assert_eq!(s(a).same(s(b)), a == b, "{} == {}", a, b);
        }
    }
}

#[test]
fn nan_is_recognised() {
    for &a in samples().iter() {
        assert_eq!(s(a).check_nan(), a.is_nan(), "{}", a);
    }
}

#[test]
fn negation_and_absolute_value_flip_the_sign_bit() {
    for &a in samples().iter() {
        assert_eq!(s(a).neg().to_bits(), (-a).to_bits(), "{}", a);
        assert_eq!(s(a).abs().to_bits(), a.abs().to_bits(), "{}", a);
    }
}

#[test]
fn min_and_max_agree_with_the_hardware_on_numbers() {
    for &a in samples().iter() {
        for &b in samples().iter() {
            let lo = f(s(a).min(s(b)));
            let hi = f(s(a).max(s(b)));
            if a.is_nan() && b.is_nan() {
                assert!(lo.is_nan() && hi.is_nan());
            } else {
                assert_eq!(lo, a.min(b), "min({}, {})", a, b);
                assert_eq!(hi, a.max(b), "max({}, {})", a, b);
            }
        }
    }
}

#[test]
fn min_and_max_order_the_two_zeros() {
    assert_eq!(s(0.0).min(s(-0.0)).to_bits(), (-0.0f32).to_bits());
    assert_eq!(s(-0.0).min(s(0.0)).to_bits(), (-0.0f32).to_bits());
    assert_eq!(s(0.0).max(s(-0.0)).to_bits(), 0.0f32.to_bits());
    assert_eq!(s(-0.0).max(s(0.0)).to_bits(), 0.0f32.to_bits());
}

#[test]
fn rank_and_position() {
    assert_eq!(s(0.0).rank_value(), 0);
    assert_eq!(s(-0.0).rank_value(), 0);
    assert_eq!(s(0.0).position_value(), 0);
    assert_eq!(s(-0.0).position_value(), -1);
    assert_eq!(s(1.0).rank_value(), 0x3f80_0000);
    assert_eq!(s(-1.0).rank_value(), -0x3f80_0000);
    assert_eq!(s(-1.0).position_value(), -0x3f80_0000 - 1);
}

#[test]
fn constants() {
    assert_eq!(f(Scalar::zero()), 0.0);
    assert_eq!(Scalar::zero().to_bits(), 0);
    assert_eq!(f(Scalar::one()), 1.0);
    assert_eq!(f(Scalar::max_value()), f32::MAX);
    assert_eq!(Scalar::from_bits(0x4048_0000).to_bits(), 0x4048_0000);
    assert_eq!(f(Scalar::from_bits(0x4048_0000)), 3.125);
}
