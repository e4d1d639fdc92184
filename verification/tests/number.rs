use hls2dash::double::{
    Double, INFINITY_BITS, QUARTER_BITS, SIXTY_BITS, TENTH_BITS, TWO_BITS,
};
use hls2dash::number::{is_real_text, number_text, parse_u64};

#[test]
fn numerals_round_trip() {
    for n in [0, 1, 9, 10, 99, 100, 188, u32::MAX as u64, u64::MAX - 1, u64::MAX] {
        assert_eq!(number_text(n), n.to_string());
        assert_eq!(parse_u64(&number_text(n)), Some(n));
    }
}

#[test]
fn numerals_are_read_as_the_standard_library_reads_them() {
    let texts = [
        "", "0", "00", "+7", "++7", "-1", "+", " 1", "1 ", "1_000", "12a", "18446744073709551615",
        "18446744073709551616", "99999999999999999999999", "\u{0661}",
    ];
    for t in texts {
        assert_eq!(parse_u64(t), t.parse::<u64>().ok(), "{t}");
    }
}

#[test]
fn real_numbers_are_recognized_as_the_standard_library_does() {
    let texts = [
        "", "6.0", "6", ".5", "5.", ".", "+1.5", "-2", "+-2", "1e3", "1E+3", "1e-3", "1e", "e3",
        "1.2.3", "inf", "-inf", "Infinity", "INFINITY", "nan", "NaN", "+nan", "infinit", "1,5",
        " 1", "1 ", "0x10", "1_0", "1e+", ".e1", "5.e2", "-", "+", "1e5.0", "\u{0661}",
    ];
    for t in texts {
        assert_eq!(is_real_text(t), t.parse::<f64>().is_ok(), "{t}");
    }
}

#[test]
fn bit_patterns_are_those_of_the_numbers() {
    assert_eq!(f64::from_bits(TWO_BITS), 2.0);
    assert_eq!(f64::from_bits(TENTH_BITS), 0.1);
    assert_eq!(f64::from_bits(QUARTER_BITS), 0.25);
    assert_eq!(f64::from_bits(SIXTY_BITS), 60.0);
    assert_eq!(f64::from_bits(INFINITY_BITS), f64::INFINITY);
}

fn double(x: f64) -> Double {
    Double { bits: x.to_bits() }
}

#[test]
fn comparisons_agree_with_floating_point() {
    let numbers = [
        0.0, -0.0, 1.0, -1.0, 0.05, 0.1, 0.10000001, 2.0, 59.9, 60.0, 61.0, 1e300, 5e-324,
        f64::INFINITY, f64::NEG_INFINITY, f64::NAN, -f64::NAN,
    ];
    for x in numbers {
        let positive = x.is_finite() && x > 0.0;
        assert_eq!(double(x).is_positive(), positive, "{x}");
        let or_two = if positive { x } else { 2.0 };
        assert_eq!(double(x).positive_or(double(2.0)), double(or_two), "{x}");
        assert_eq!(double(x).at_least_tenth(), double(x.max(0.1)), "{x}");
        if positive {
            assert_eq!(double(x).paced(), double(x.clamp(0.1, 60.0)), "{x}");
        }
    }
}
