use silence_cutter::double::Double;

fn d(x: f64) -> Double {
    Double { bits: x.to_bits() }
}

fn agrees(got: Double, expected: f64) -> bool {
    if expected.is_nan() {
        f64::from_bits(got.bits).is_nan()
    } else {
        got.bits == expected.to_bits()
    }
}

fn edge_values() -> Vec<f64> {
    vec![
        0.0,
        -0.0,
        1.0,
        -1.0,
        0.1,
        0.05,
        -0.3,
        60.0,
        1e-3,
        3.5e9,
        f64::MAX,
        f64::MIN,
        f64::MIN_POSITIVE,
        5e-324,
        -5e-324,
        1.0 + f64::EPSILON,
        1.0 - f64::EPSILON / 2.0,
        4503599627370496.0,
        9007199254740993.0,
        f64::INFINITY,
        f64::NEG_INFINITY,
        f64::NAN,
        1e308,
        1e-308,
        2.5e-162,
        7.0 / 3.0,
    ]
}

fn random_values(count: usize, mut seed: u64) -> Vec<f64> {
    let mut values = Vec::new();
    for _ in 0..count {
        seed ^= seed << 13;
        seed ^= seed >> 7;
        seed ^= seed << 17;
        values.push(f64::from_bits(seed));
    }
    values
}

fn near_values(count: usize, mut seed: u64) -> Vec<f64> {
    let mut values = Vec::new();
    for _ in 0..count {
        seed ^= seed << 13;
        seed ^= seed >> 7;
        seed ^= seed << 17;
        // exponents close to that of one, so that bits of both operands meet
        let exponent = 1023 - 40 + (seed >> 52) % 80;
        let sign = (seed & 1) << 63;
        values.push(f64::from_bits(sign | exponent << 52 | (seed >> 4) & 0xf_ffff_ffff_ffff));
    }
    values
}

fn check_pairs(values: &[f64]) {
    for &a in values {
        for &b in values {
            assert!(agrees(d(a).plus(d(b)), a + b), "{:?} + {:?}", a, b);
            assert!(agrees(d(a).minus(d(b)), a - b), "{:?} - {:?}", a, b);
            assert!(agrees(d(a).times(d(b)), a * b), "{:?} * {:?}", a, b);
            assert!(agrees(d(a).over(d(b)), a / b), "{:?} / {:?}", a, b);
            assert_eq!(d(a).gt(d(b)), a > b);
            assert_eq!(d(a).lt(d(b)), a < b);
            assert_eq!(d(a).same_value(d(b)), a == b);
        }
    }
}

#[test]
fn arithmetic_on_edge_values() {
    check_pairs(&edge_values());
}

#[test]
fn arithmetic_on_random_values() {
    check_pairs(&random_values(250, 0x9e37_79b9_7f4a_7c15));
}

#[test]
fn arithmetic_on_values_close_together() {
    check_pairs(&near_values(250, 0x1234_5678_9abc_def1));
}

#[test]
fn arithmetic_on_subnormal_values() {
    let values: Vec<f64> = random_values(120, 77)
        .iter()
        .map(|x| f64::from_bits(x.to_bits() & 0x803f_ffff_ffff_ffff))
        .collect();
    check_pairs(&values);
}

#[test]
fn negation_and_floor() {
    for x in edge_values() {
        assert_eq!(d(x).negate().bits, (-x).to_bits());
        let floored = f64::from_bits(d(x).floor_at_zero().bits);
        assert!(floored == x.max(0.0));
        assert_eq!(d(x).is_undefined(), x.is_nan());
    }
}

#[test]
fn fractions_are_the_nearest_numbers() {
    assert_eq!(Double::from_fraction(5, 100).bits, 0.05f64.to_bits());
    assert_eq!(Double::from_fraction(1, 10).bits, 0.1f64.to_bits());
    assert_eq!(Double::from_fraction(1667, 100).bits, 16.67f64.to_bits());
    assert_eq!(Double::from_fraction(25, 10).bits, 2.5f64.to_bits());
    for num in 1..200u64 {
        for den in 1..60u64 {
            let expected = num as f64 / den as f64;
            assert_eq!(Double::from_fraction(num, den).bits, expected.to_bits());
        }
    }
}

#[test]
fn counts_are_rounded_like_casts() {
    let counts: Vec<u64> = vec![
        0,
        1,
        2,
        10,
        4096,
        9007199254740991,
        9007199254740992,
        9007199254740993,
        9007199254740995,
        u64::MAX,
        u64::MAX - 1024,
        1 << 63,
    ];
    for n in counts {
        assert_eq!(Double::from_count(n).bits, (n as f64).to_bits());
    }
}
