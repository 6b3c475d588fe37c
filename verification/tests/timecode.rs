use silence_cutter::double::Double;
use silence_cutter::text::{push_decimal, push_three_digits};
use silence_cutter::timecode::push_fixed;

fn fixed(x: f64) -> String {
    let mut out = String::new();
    push_fixed(&mut out, Double { bits: x.to_bits() });
    out
}

#[test]
fn fixed_shows_three_decimals() {
    assert_eq!(fixed(0.0), "0.000");
    assert_eq!(fixed(1.5), "1.500");
    assert_eq!(fixed(12.3456), "12.346");
    assert_eq!(fixed(0.0005), "0.001");
    assert_eq!(fixed(0.0625), "0.062");
    assert_eq!(fixed(0.1875), "0.188");
    assert_eq!(fixed(-2.25), "-2.250");
}

#[test]
fn fixed_agrees_with_std() {
    let values: Vec<f64> = vec![
        -0.0,
        0.9995,
        0.99949999,
        1e-300,
        5e-324,
        0.5,
        0.0015,
        0.0025,
        123456789.987654321,
        4503599627370495.5,
        9007199254740993.0,
        1e22,
        1.7976931348623157e308,
        -1e19,
        3.0e38,
        f64::INFINITY,
        f64::NEG_INFINITY,
        f64::NAN,
    ];
    for x in values {
        assert_eq!(fixed(x), format!("{:.3}", x));
    }
}

#[test]
fn fixed_agrees_with_std_on_random_values() {
    let mut seed: u64 = 0xdead_beef_cafe_f00d;
    for i in 0..3000u64 {
        seed ^= seed << 13;
        seed ^= seed >> 7;
        seed ^= seed << 17;
        let bits = if i % 2 == 0 { seed } else { (1023 - 20 + seed % 50) << 52 | seed >> 12 };
        let x = f64::from_bits(bits);
        assert_eq!(fixed(x), format!("{:.3}", x));
    }
}

#[test]
fn decimal_digits() {
    let mut out = String::from("n=");
    push_decimal(&mut out, 0);
    push_decimal(&mut out, 1234567890);
    push_decimal(&mut out, u64::MAX);
    assert_eq!(out, "n=0123456789018446744073709551615");
    let mut out = String::new();
    push_three_digits(&mut out, 7);
    push_three_digits(&mut out, 4567);
    assert_eq!(out, "007567");
}

#[test]
fn fixed_is_within_half_a_thousandth() {
    for x in [0.0004999, 0.1, 1.0005, 59.9996, 3599.1234567] {
        let shown: f64 = fixed(x).parse().unwrap();
        assert!((shown - x).abs() <= 0.0005 + 1e-12);
    }
}
