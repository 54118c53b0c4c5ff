use bq_sentinel::amount::Amount;
use bq_sentinel::pricing::{calculate_cost, exceeds_budget, BYTES_PER_TIB};

fn amount(value: f64) -> Amount {
    Amount { bits: value.to_bits() }
}

fn cost(bytes: u64, price: f64) -> f64 {
    f64::from_bits(calculate_cost(bytes, amount(price)).bits)
}

fn too_much(cost: f64, max_cost: f64) -> bool {
    exceeds_budget(amount(cost), amount(max_cost))
}

/// The same product, as the machine computes it.
fn machine_cost(bytes: u64, price: f64) -> f64 {
    (bytes as f64 / 1_099_511_627_776.0) * price
}

fn same(bytes: u64, price: f64) {
    let ours = cost(bytes, price);
    let machine = machine_cost(bytes, price);
    if machine.is_nan() {
        assert!(ours.is_nan(), "{} bytes at {}", bytes, price);
    } else {
        assert_eq!(ours.to_bits(), machine.to_bits(), "{} bytes at {}", bytes, price);
    }
}

fn next(state: &mut u64) -> u64 {
    *state = state.wrapping_mul(6364136223846793005).wrapping_add(1442695040888963407);
    let x = *state;
    (x >> 29) ^ x
}

#[test]
fn one_tib_costs_exactly_the_configured_price() {
    let cost = cost(BYTES_PER_TIB, 6.25);
    assert!((cost - 6.25).abs() < 1e-9);
}

#[test]
fn zero_bytes_cost_nothing() {
    assert_eq!(cost(0, 6.25), 0.0);
}

#[test]
fn half_a_tib_costs_half_the_price() {
    let half_tib_bytes = BYTES_PER_TIB / 2;
    let cost = cost(half_tib_bytes, 10.0);
    assert!((cost - 5.0).abs() < 1e-6);
}

#[test]
fn zero_price_per_tib_means_zero_cost() {
    assert_eq!(cost(BYTES_PER_TIB, 0.0), 0.0);
}

#[test]
fn does_not_panic_or_overflow_on_a_huge_byte_count() {
    let cost = cost(u64::MAX, 6.25);
    assert!(cost.is_finite());
    assert!(cost > 0.0);
}

#[test]
fn budget_check_is_a_strict_inequality() {
    assert!(!too_much(10.0, 10.0), "a cost exactly equal to the limit should not be blocked");
    assert!(too_much(10.01, 10.0));
    assert!(!too_much(0.0, 0.0));
}

#[test]
fn one_tib_costs_any_price_to_the_bit() {
    for price in [6.25, -6.25, 0.0, -0.0, 5e-324, f64::MAX, f64::INFINITY, 0.1] {
        assert_eq!(cost(BYTES_PER_TIB, price).to_bits(), price.to_bits());
    }
}

#[test]
fn exact_costs() {
    assert_eq!(cost(2_199_023_255_552, 6.25), 12.5);
    assert_eq!(cost(4096, 6.25), 6.25 / 268_435_456.0);
    assert_eq!(cost(u64::MAX, 6.25), 104_857_600.0);
    assert_eq!(cost(1, 1.0), 9.094947017729282e-13);
}

#[test]
fn a_price_that_is_not_a_number_gives_no_cost() {
    assert!(cost(1, f64::NAN).is_nan());
    assert!(cost(0, f64::INFINITY).is_nan());
    assert_eq!(cost(1, f64::INFINITY), f64::INFINITY);
    assert_eq!(cost(1, f64::NEG_INFINITY), f64::NEG_INFINITY);
    assert!(!too_much(f64::NAN, 0.0));
    assert!(!too_much(1.0, f64::NAN));
}

#[test]
fn a_cost_can_overflow_and_underflow() {
    assert_eq!(cost(u64::MAX, f64::MAX), f64::INFINITY);
    assert_eq!(cost(1, 5e-324), 0.0);
    same(u64::MAX, f64::MAX);
    same(1, f64::MIN_POSITIVE);
    same(BYTES_PER_TIB / 2, 5e-324);
    same(BYTES_PER_TIB / 2 + 1, 5e-324);
    same(3 * (BYTES_PER_TIB / 2), 5e-324);
}

#[test]
fn costs_are_what_the_machine_computes() {
    let mut state: u64 = 7;
    for _ in 0..20000 {
        let bytes = next(&mut state) >> (next(&mut state) % 64);
        let price = f64::from_bits(next(&mut state));
        same(bytes, price);
        let price = (next(&mut state) % 100000) as f64 / 100.0;
        same(bytes, price);
    }
}

#[test]
fn bytes_past_the_significand_are_rounded_to_even() {
    let edge: u64 = 1 << 53;
    for bytes in [edge - 1, edge, edge + 1, edge + 2, edge + 3, u64::MAX - 1024, u64::MAX - 1025] {
        same(bytes, 6.25);
        same(bytes, 1.0);
    }
}

#[test]
fn a_larger_scan_never_costs_less() {
    let mut state: u64 = 11;
    for _ in 0..2000 {
        let one = next(&mut state);
        let other = next(&mut state);
        let price = (next(&mut state) % 1000) as f64 / 8.0;
        let (fewer, more) = if one < other { (one, other) } else { (other, one) };
        assert!(!too_much(cost(fewer, price), cost(more, price)));
    }
}

#[test]
fn comparisons_are_what_the_machine_decides() {
    let mut values = vec![
        0.0,
        -0.0,
        1.0,
        -1.0,
        5e-324,
        -5e-324,
        f64::MAX,
        f64::MIN,
        f64::INFINITY,
        f64::NEG_INFINITY,
        f64::NAN,
    ];
    let mut state: u64 = 3;
    for _ in 0..40 {
        values.push(f64::from_bits(next(&mut state)));
    }
    for one in &values {
        for other in &values {
            assert_eq!(too_much(*one, *other), *one > *other);
        }
    }
}

#[test]
fn a_higher_price_never_makes_a_query_cheaper() {
    let prices = [0.0, 5e-324, 0.01, 6.25, 6.26, 1e300, f64::INFINITY];
    for bytes in [1, 4096, BYTES_PER_TIB, u64::MAX] {
        for pair in prices.windows(2) {
            assert!(!too_much(cost(bytes, pair[0]), cost(bytes, pair[1])));
        }
    }
}
