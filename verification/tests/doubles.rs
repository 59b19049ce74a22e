use copc_rs::double::Double;

fn d(v: f64) -> Double {
    Double::from_bits(v.to_bits())
}

fn samples() -> Vec<f64> {
    vec![
        0.0,
        -0.0,
        1.0,
        -1.0,
        0.5,
        1.5,
        -2.25,
        f64::MAX,
        f64::MIN,
        f64::MIN_POSITIVE,
        f64::MIN_POSITIVE / 2.0,
        -f64::MIN_POSITIVE / 4.0,
        f64::INFINITY,
        f64::NEG_INFINITY,
        f64::NAN,
        f64::EPSILON,
        1e300,
        -1e-300,
        123456.789,
    ]
}

#[test]
fn less_than_is_that_of_the_numbers() {
    for a in samples() {
        for b in samples() {
            assert_eq!(d(a).lt(&d(b)), a < b, "{} < {}", a, b);
            assert_eq!(d(a).gt(&d(b)), a > b, "{} > {}", a, b);
            assert_eq!(d(a).same(&d(b)), a == b, "{} == {}", a, b);
        }
    }
}

#[test]
fn normal_is_that_of_the_numbers() {
    for a in samples() {
        assert_eq!(d(a).is_normal(), a.is_normal(), "{}", a);
        assert_eq!(d(a).is_nan(), a.is_nan(), "{}", a);
    }
}

#[test]
fn largest_and_smallest_are_those_of_the_numbers() {
    assert_eq!(Double::max_value().to_bits(), f64::MAX.to_bits());
    assert_eq!(Double::min_value().to_bits(), f64::MIN.to_bits());
    assert_eq!(Double::zero().to_bits(), 0.0f64.to_bits());
}

#[test]
fn bits_are_kept() {
    assert_eq!(Double::from_bits(0x4009_21FB_5444_2D18).to_bits(), 0x4009_21FB_5444_2D18);
}
