use bq_sentinel::amount::Amount;
use bq_sentinel::cents::format_two_decimals;
use bq_sentinel::decimal::parse;
use bq_sentinel::positional::Natural;
use bq_sentinel::rounding::nearest_pattern;
use bq_sentinel::text::{characters, parse_whole};

fn next(state: &mut u64) -> u64 {
    *state = state.wrapping_mul(6364136223846793005).wrapping_add(1442695040888963407);
    let x = *state;
    (x >> 31) ^ x
}

fn reads_alike(text: &str) {
    match (parse(text), text.parse::<f64>()) {
        (Some(ours), Ok(theirs)) => {
            if theirs.is_nan() {
                assert!(f64::from_bits(ours.bits).is_nan(), "{}", text);
            } else {
                assert_eq!(ours.bits, theirs.to_bits(), "{}", text);
            }
        }
        (None, Err(_)) => {}
        _ => panic!("{} is read differently", text),
    }
}

fn writes_alike(value: f64) {
    assert_eq!(format_two_decimals(Amount { bits: value.to_bits() }), format!("{:.2}", value));
}

#[test]
fn decimals_are_read_as_the_standard_library_reads_them() {
    let texts = [
        "5.00", "6.25", "12.5", "7.8125", "0", "-0", "+0.0", "1", "-1", "+1", "5.", ".5", "-.5",
        ".", "", "+", "-", "e5", ".e5", "1e5", "1E5", "1e+5", "1e-5", "1e", "1e+", "1e-", "1.e3",
        "1.5e3x", "x", "1 ", " 1", "1_000", "1,5", "0x10", "inf", "-inf", "+infinity", "Infinity",
        "INF", "nan", "NaN", "-nan", "infinit", "infinityy", "in", "1e400", "-1e400", "1e-400",
        "1e999999999999999999999999999999999999999999999", "0e999999999999999999999999999999999",
        "1e-999999999999999999999999999999999999999999999", "5e-324", "2.5e-324", "2.4e-324",
        "1.7976931348623157e308", "1.7976931348623158e308", "1.7976931348623159e308", "0.1", "0.3",
        "9007199254740993", "9007199254740992.5", "9007199254740993.00000000000000000000000001",
        "2.2250738585072011e-308", "2.2250738585072014e-308", "123456789.987654321", "--1", "1..2",
        "000000000000000000000000000000000012.50", "0.000000000000000000000000000000000000000125",
    ];
    for text in texts {
        reads_alike(text);
    }
}

#[test]
fn random_decimals_are_read_as_the_standard_library_reads_them() {
    let mut state: u64 = 5;
    for _ in 0..300 {
        let value = f64::from_bits(next(&mut state));
        reads_alike(&format!("{:e}", value));
        let whole = next(&mut state) % 10000;
        let cents = next(&mut state) % 100;
        reads_alike(&format!("{}.{:02}", whole, cents));
    }
}

#[test]
fn amounts_are_written_as_the_standard_library_writes_them() {
    let values = [
        0.0, -0.0, 1.0, -1.0, 12.5, 5.0, 0.005, 0.015, 0.125, 0.375, 0.625, 0.875, 1.125, 99.995,
        0.995, 0.994, 9.999, -0.001, 5e-324, 1e21, 1e22, 123456789.125, 1e300, f64::MAX, f64::MIN,
        f64::INFINITY, f64::NEG_INFINITY, f64::NAN, 0.1, 104857600.0, 4503599627370496.5,
    ];
    for value in values {
        writes_alike(value);
    }
    let mut state: u64 = 9;
    for _ in 0..2000 {
        writes_alike(f64::from_bits(next(&mut state)));
        writes_alike((next(&mut state) % 10_000_000) as f64 / 1024.0);
    }
}

#[test]
fn a_written_amount_is_read_back_to_the_cent() {
    let mut state: u64 = 13;
    for _ in 0..100 {
        let value = (next(&mut state) % 1_000_000) as f64 / 64.0;
        let text = format_two_decimals(Amount { bits: value.to_bits() });
        let read = f64::from_bits(parse(&text).unwrap().bits);
        assert!((read - value).abs() <= 0.005 + 1e-9);
    }
}

#[test]
fn whole_numbers_are_read_up_to_a_limit() {
    assert_eq!(parse_whole("123456789", u64::MAX), Some(123456789));
    assert_eq!(parse_whole("18446744073709551615", u64::MAX), Some(u64::MAX));
    assert_eq!(parse_whole("18446744073709551616", u64::MAX), None);
    assert_eq!(parse_whole("10", 10), Some(10));
    assert_eq!(parse_whole("11", 10), None);
    assert_eq!(parse_whole("+7", 10), Some(7));
    assert_eq!(parse_whole("", 10), None);
    assert_eq!(parse_whole("1.0", 10), None);
    assert_eq!(parse_whole("\u{664}", 10), None);
}

#[test]
fn characters_of_a_text() {
    assert_eq!(characters(""), Vec::<char>::new());
    assert_eq!(characters("a\u{e9}z"), vec!['a', '\u{e9}', 'z']);
}

#[test]
fn naturals_grow_past_any_machine_number() {
    let mut number = Natural::new(10, 0);
    number.multiply_add(1, 12345);
    number.multiply_repeatedly(10, 30);
    assert_eq!(number.len(), 35);
    assert_eq!(number.digit(34), 1);
    assert_eq!(number.digit(30), 5);
    assert_eq!(number.digit(0), 0);
    let mut larger = number.copy();
    larger.multiply_add(1, 1);
    assert!(number.at_most(&larger));
    assert!(!larger.at_most(&number));
    assert!(larger.at_most(&larger.copy()));
}

#[test]
fn ties_are_rounded_to_even() {
    let one: u64 = 1.0f64.to_bits();
    assert_eq!(nearest_pattern(1, 1074), one);
    assert_eq!(nearest_pattern((1 << 53) + 1, 1074 - 53), one);
    assert_eq!(nearest_pattern((1 << 53) + 3, 1074 - 53), one + 2);
    assert_eq!(nearest_pattern((1 << 54) + 3, 1074 - 54), one + 1);
    assert_eq!(nearest_pattern(1, 3000), f64::INFINITY.to_bits());
    assert_eq!(nearest_pattern(1, -1), 0);
    assert_eq!(nearest_pattern(3, -1), 2);
    assert_eq!(nearest_pattern(0, 10), 0);
}

#[test]
fn whole_numbers_that_were_written_read_back_as_themselves() {
    let numbers = [0, 7, 9, 10, 99, 100, 1074, 65535, 4294967296, u64::MAX - 1, u64::MAX];
    for number in numbers {
        assert_eq!(parse_whole(&number.to_string(), u64::MAX), Some(number));
    }
}

#[test]
fn a_text_is_read_as_one_amount() {
    for text in ["0.1", "-0", "5e-324", "-inf", "12.50"] {
        let bits = text.parse::<f64>().unwrap().to_bits();
        assert_eq!(parse(text), Some(Amount { bits }));
        assert_eq!(parse(text), parse(text));
    }
}
