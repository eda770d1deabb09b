use linfa_clustering::float_order::lt;

fn samples() -> Vec<f64> {
    vec![
        0.0,
        -0.0,
        1.0,
        -1.0,
        1.5,
        -1.5,
        2.0,
        1e-300,
        -1e-300,
        5e-324,
        -5e-324,
        f64::MIN_POSITIVE,
        f64::MAX,
        f64::MIN,
        f64::INFINITY,
        f64::NEG_INFINITY,
        f64::NAN,
        -f64::NAN,
        f64::from_bits(0x7FF0_0000_0000_0001),
        f64::from_bits(0xFFF8_0000_0000_0001),
        123456.789,
        -0.000123,
    ]
}

#[test]
fn lt_agrees_with_f64_less_than() {
    let xs = samples();
    for a in &xs {
        for b in &xs {
            assert_eq!(lt(a.to_bits(), b.to_bits()), a < b, "{} < {}", a, b);
        }
    }
}

#[test]
fn lt_treats_both_zeros_as_equal() {
    assert!(!lt(0.0f64.to_bits(), (-0.0f64).to_bits()));
    assert!(!lt((-0.0f64).to_bits(), 0.0f64.to_bits()));
}

#[test]
fn lt_is_false_with_nan() {
    let nan = f64::NAN.to_bits();
    assert!(!lt(nan, 1.0f64.to_bits()));
    assert!(!lt(1.0f64.to_bits(), nan));
    assert!(!lt(nan, nan));
}

#[test]
fn lt_orders_negatives_by_magnitude() {
    assert!(lt((-3.0f64).to_bits(), (-2.0f64).to_bits()));
    assert!(!lt((-2.0f64).to_bits(), (-3.0f64).to_bits()));
    assert!(lt(f64::NEG_INFINITY.to_bits(), f64::MIN.to_bits()));
    assert!(lt(f64::MAX.to_bits(), f64::INFINITY.to_bits()));
}
