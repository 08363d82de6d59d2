use particle_life::scalar::{Scalar, HUNDRED_BITS, ONE_BITS, TEN_BITS};

fn s(x: f32) -> Scalar {
    Scalar::from_bits(x.to_bits())
}

fn samples() -> Vec<f32> {
    vec![
        0.0,
        -0.0,
        1.0,
        -1.0,
        0.5,
        2.0,
        5.0,
        7.5,
        10.0,
        15.0,
        99.99,
        100.0,
        -3.0,
        1.0e-40,
        -1.0e-40,
        f32::MIN_POSITIVE,
        f32::MAX,
        f32::MIN,
        f32::from_bits(1),
        f32::from_bits(0x007f_ffff),
        f32::from_bits(0x0040_0000),
        1.7e38,
        1.8e38,
        -1.8e38,
        f32::INFINITY,
        f32::NEG_INFINITY,
        f32::NAN,
        -f32::NAN,
    ]
}

#[test]
fn bits_round_trip() {
    assert_eq!(Scalar::from_bits(0x4170_0000).to_bits(), 0x4170_0000);
    assert_eq!(s(15.0).to_bits(), 0x4170_0000);
}

#[test]
fn constants_are_the_numbers_they_name() {
    assert_eq!(Scalar::zero().to_bits(), 0.0f32.to_bits());
    assert_eq!(Scalar::one().to_bits(), 1.0f32.to_bits());
    assert_eq!(Scalar::ten().to_bits(), 10.0f32.to_bits());
    assert_eq!(Scalar::hundred().to_bits(), 100.0f32.to_bits());
    assert_eq!(ONE_BITS, 1.0f32.to_bits());
    assert_eq!(TEN_BITS, 10.0f32.to_bits());
    assert_eq!(HUNDRED_BITS, 100.0f32.to_bits());
}

#[test]
fn comparisons_agree_with_the_hardware() {
    for a in samples() {
        for b in samples() {
            assert_eq!(s(a).lt(s(b)), a < b, "{a:?} < {b:?}");
            assert_eq!(s(a).le(s(b)), a <= b, "{a:?} <= {b:?}");
            assert_eq!(s(a).gt(s(b)), a > b, "{a:?} > {b:?}");
            assert_eq!(s(a).ge(s(b)), a >= b, "{a:?} >= {b:?}");
            assert_eq!(s(a).same_value(s(b)), a == b, "{a:?} == {b:?}");
        }
    }
}

#[test]
fn classes_agree_with_the_hardware() {
    for a in samples() {
        assert_eq!(s(a).is_nan(), a.is_nan(), "{a:?}");
        assert_eq!(s(a).is_finite(), a.is_finite(), "{a:?}");
        assert_eq!(s(a).is_zero(), a == 0.0, "{a:?}");
        assert_eq!(s(a).is_sign_negative(), a.is_sign_negative(), "{a:?}");
    }
}

#[test]
fn the_two_zeros_are_equal_and_not_a_number_equals_nothing() {
    assert!(s(0.0).same_value(s(-0.0)));
    assert!(!s(0.0).lt(s(-0.0)));
    assert!(!s(-0.0).lt(s(0.0)));
    assert!(!s(f32::NAN).same_value(s(f32::NAN)));
    assert!(!s(f32::NAN).le(s(1.0)));
    assert!(!s(1.0).le(s(f32::NAN)));
}

#[test]
fn negation_flips_the_sign_bit() {
    for a in samples() {
        if !a.is_nan() {
            assert_eq!(s(a).negated().to_bits(), (-a).to_bits(), "{a:?}");
            assert_eq!(s(a).negated().to_bits(), (a * -1.0).to_bits(), "{a:?}");
        }
        assert_eq!(s(a).negated().negated(), s(a));
    }
    assert_eq!(s(-3.0).negated(), s(3.0));
}

#[test]
fn doubling_agrees_with_the_hardware() {
    for a in samples() {
        if a.is_nan() {
            assert!(s(a).doubled().is_nan());
        } else {
            assert_eq!(s(a).doubled().to_bits(), (a * 2.0).to_bits(), "{a:?}");
        }
    }
    assert_eq!(s(5.0).doubled(), s(10.0));
    assert_eq!(s(f32::MAX).doubled(), s(f32::INFINITY));
    assert_eq!(s(f32::MIN).doubled(), s(f32::NEG_INFINITY));
    assert_eq!(s(1.7e38).doubled(), s(3.4e38));
    assert_eq!(s(1.8e38).doubled(), s(f32::INFINITY));
    assert_eq!(s(f32::from_bits(0x0040_0000)).doubled(), s(f32::MIN_POSITIVE));
}

#[test]
fn max_agrees_with_the_hardware() {
    for a in samples() {
        for b in samples() {
            let got = s(a).max(s(b));
            let want = a.max(b);
            if want.is_nan() {
                assert!(got.is_nan(), "{a:?} {b:?}");
            } else if a == 0.0 && b == 0.0 {
                assert!(got.is_zero());
            } else {
                assert_eq!(got.to_bits(), want.to_bits(), "{a:?} {b:?}");
            }
        }
    }
    assert_eq!(s(100.0).max(s(6.25)), s(100.0));
    assert_eq!(s(100.0).max(s(144.0)), s(144.0));
    assert_eq!(s(100.0).max(s(f32::NAN)), s(100.0));
    assert_eq!(s(f32::NAN).max(s(7.0)), s(7.0));
}
