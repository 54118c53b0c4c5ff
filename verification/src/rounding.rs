//! Rounding to the nearest binary64 number, ties to even.
//!
//! A binary64 number without its sign is an integer between 0 and
//! [`INFINITY`]: its bit pattern. The patterns are ordered as the numbers that
//! they stand for, and every finite one stands for a whole number of units of
//! 2^-1074, the smallest positive binary64 number. So neighbouring patterns are
//! neighbouring numbers, and an even pattern is one with an even significand.

use vstd::prelude::*;

verus! {

/// The number of fractions that share one exponent: 2^52.
pub const FRACTIONS: u64 = 0x0010_0000_0000_0000;

/// The pattern of infinity: the exponent field is all ones, the fraction zero.
pub const INFINITY: u64 = 0x7ff0_0000_0000_0000;

/// Two to the power of `exponent`.
pub open spec fn pow2(exponent: int) -> int {
    vstd::arithmetic::power2::pow2(exponent as nat) as int
}

/// The number that a pattern stands for, in units of 2^-1074. Where the
/// exponent field is zero the significand has no leading one. The pattern of
/// infinity counts as the number that would come next.
pub open spec fn magnitude(pattern: int) -> int {
    if pattern < FRACTIONS {
        pattern
    } else {
        (FRACTIONS + pattern % (FRACTIONS as int)) * pow2(pattern / (FRACTIONS as int) - 1)
    }
}

/// `pattern` is nearest to `num / den` units among all patterns, and even where
/// `num / den` lies halfway between two of them.
pub open spec fn rounds_to(num: int, den: int, pattern: int) -> bool {
    &&& 0 <= pattern <= INFINITY
    &&& pattern > 0 ==> not_below(num, den, pattern)
    &&& pattern < INFINITY ==> not_above(num, den, pattern)
}

/// `num / den` is no nearer to the pattern before `pattern` than to `pattern`.
pub open spec fn not_below(num: int, den: int, pattern: int) -> bool {
    let halfway = den * (magnitude(pattern - 1) + magnitude(pattern));
    halfway < 2 * num || (halfway == 2 * num && pattern % 2 == 0)
}

/// `num / den` is no nearer to the pattern after `pattern` than to `pattern`.
pub open spec fn not_above(num: int, den: int, pattern: int) -> bool {
    let halfway = den * (magnitude(pattern) + magnitude(pattern + 1));
    2 * num < halfway || (2 * num == halfway && pattern % 2 == 0)
}

/// The pattern nearest to `num / den` units.
pub open spec fn nearest(num: int, den: int) -> int {
    choose|pattern: int| rounds_to(num, den, pattern)
}

/// `significand * 2^exponent` as a quotient of whole numbers: what is divided.
pub open spec fn scaled_num(significand: int, exponent: int) -> int {
    if exponent >= 0 {
        significand * pow2(exponent)
    } else {
        significand
    }
}

/// `significand * 2^exponent` as a quotient of whole numbers: what it is divided
/// by.
pub open spec fn scaled_den(exponent: int) -> int {
    if exponent >= 0 {
        1
    } else {
        pow2(-exponent)
    }
}

/// The patterns of one exponent are evenly spaced.
pub proof fn lemma_magnitude_of_parts(exponent: int, significand: int)
    requires
        0 <= exponent,
        0 <= significand <= 2 * FRACTIONS,
        exponent == 0 || FRACTIONS <= significand,
    ensures
        magnitude(exponent * FRACTIONS + significand) == significand * pow2(exponent),
{
    let f = FRACTIONS as int;
    let pattern = exponent * f + significand;
    vstd::arithmetic::power2::lemma2_to64();
    if significand < f {
        assert(significand * pow2(exponent) == significand) by (nonlinear_arith)
            requires
                pow2(exponent) == 1,
        ;
    } else if significand < 2 * f {
        assert(pattern == (exponent + 1) * f + (significand - f)) by (nonlinear_arith)
            requires
                pattern == exponent * f + significand,
        ;
        vstd::arithmetic::div_mod::lemma_fundamental_div_mod_converse(
            pattern,
            f,
            exponent + 1,
            significand - f,
        );
        assert(pattern >= f) by (nonlinear_arith)
            requires
                pattern == exponent * f + significand,
                exponent >= 0,
                significand >= f,
                f > 0,
        ;
    } else {
        assert(pattern == (exponent + 2) * f) by (nonlinear_arith)
            requires
                pattern == exponent * f + significand,
                significand == 2 * f,
        ;
        vstd::arithmetic::div_mod::lemma_fundamental_div_mod_converse(pattern, f, exponent + 2, 0);
        assert(pattern >= f) by (nonlinear_arith)
            requires
                pattern == exponent * f + significand,
                exponent >= 0,
                significand >= f,
                f > 0,
        ;
        vstd::arithmetic::power2::lemma_pow2_unfold((exponent + 1) as nat);
        assert(f * pow2(exponent + 1) == significand * pow2(exponent)) by (nonlinear_arith)
            requires
                significand == 2 * f,
                pow2(exponent + 1) == 2 * pow2(exponent),
        ;
    }
}

/// The exponent of a pattern, counted from that of the unit.
pub open spec fn exponent_of(pattern: int) -> int {
    if pattern < FRACTIONS {
        0
    } else {
        pattern / (FRACTIONS as int) - 1
    }
}

/// The significand of a pattern, with its leading one where it has one.
pub open spec fn significand_of(pattern: int) -> int {
    pattern - exponent_of(pattern) * FRACTIONS
}

/// A pattern stands for its significand, scaled by its exponent.
pub proof fn lemma_parts(pattern: int)
    requires
        0 <= pattern,
    ensures
        0 <= exponent_of(pattern),
        0 <= significand_of(pattern) < 2 * FRACTIONS,
        exponent_of(pattern) == 0 || FRACTIONS <= significand_of(pattern),
        magnitude(pattern) == significand_of(pattern) * pow2(exponent_of(pattern)),
{
    let f = FRACTIONS as int;
    vstd::arithmetic::div_mod::lemma_fundamental_div_mod(pattern, f);
    if pattern >= f {
        let e = pattern / f - 1;
        assert(pattern - e * f == pattern % f + f) by (nonlinear_arith)
            requires
                pattern == f * (e + 1) + pattern % f,
        ;
    }
    lemma_magnitude_of_parts(exponent_of(pattern), significand_of(pattern));
}

/// The gap between a pattern and the next one.
pub proof fn lemma_magnitude_step(pattern: int)
    requires
        0 <= pattern,
    ensures
        magnitude(pattern + 1) == magnitude(pattern) + pow2(exponent_of(pattern)),
        magnitude(pattern) < magnitude(pattern + 1),
        0 <= magnitude(pattern),
{
    let e = exponent_of(pattern);
    let s = significand_of(pattern);
    lemma_parts(pattern);
    lemma_magnitude_of_parts(e, s + 1);
    vstd::arithmetic::power2::lemma_pow2_pos(e as nat);
    assert((s + 1) * pow2(e) == s * pow2(e) + pow2(e)) by (nonlinear_arith);
    assert(s * pow2(e) >= 0) by (nonlinear_arith)
        requires
            s >= 0,
            pow2(e) > 0,
    ;
}

/// Patterns are ordered as the numbers that they stand for.
pub proof fn lemma_magnitude_increases(lower: int, upper: int)
    requires
        0 <= lower < upper,
    ensures
        magnitude(lower) < magnitude(upper),
    decreases upper - lower,
{
    lemma_magnitude_step(upper - 1);
    if lower < upper - 1 {
        lemma_magnitude_increases(lower, upper - 1);
    }
}

/// Only the pattern of zero stands for zero, and none for less.
pub proof fn lemma_magnitude_nonnegative(pattern: int)
    requires
        0 <= pattern,
    ensures
        0 <= magnitude(pattern),
        magnitude(pattern) == 0 <==> pattern == 0,
{
    if pattern > 0 {
        lemma_magnitude_increases(0, pattern);
    }
}

/// At most one pattern is nearest to a number.
pub proof fn lemma_rounds_to_unique(num: int, den: int, one: int, other: int)
    requires
        den > 0,
        rounds_to(num, den, one),
        rounds_to(num, den, other),
    ensures
        one == other,
{
    if one < other {
        lemma_rounds_to_ordered(num, den, one, other);
    } else if other < one {
        lemma_rounds_to_ordered(num, den, other, one);
    }
}

proof fn lemma_rounds_to_ordered(num: int, den: int, lower: int, upper: int)
    requires
        den > 0,
        lower <= upper,
        rounds_to(num, den, lower),
        rounds_to(num, den, upper),
    ensures
        lower == upper,
{
    let a = magnitude(lower) + magnitude(lower + 1);
    let b = magnitude(upper - 1) + magnitude(upper);
    if lower + 1 < upper {
        lemma_magnitude_increases(lower, upper - 1);
        lemma_magnitude_increases(lower + 1, upper);
        assert(den * a < den * b) by (nonlinear_arith)
            requires
                den > 0,
                a < b,
        ;
    }
}

/// Where `num / den` is not below a pattern past infinity, it rounds to
/// infinity.
pub proof fn lemma_rounds_to_infinity(num: int, den: int, pattern: int)
    requires
        den > 0,
        INFINITY <= pattern,
        not_below(num, den, pattern),
    ensures
        rounds_to(num, den, INFINITY as int),
{
    if INFINITY < pattern {
        let a = magnitude(INFINITY - 1) + magnitude(INFINITY as int);
        let b = magnitude(pattern - 1) + magnitude(pattern);
        lemma_magnitude_increases(INFINITY - 1, pattern - 1);
        lemma_magnitude_increases(INFINITY as int, pattern);
        assert(den * a < den * b) by (nonlinear_arith)
            requires
                den > 0,
                a < b,
        ;
    }
}

/// Every number that is not negative rounds to some pattern.
pub proof fn lemma_rounds_to_exists(num: int, den: int)
    requires
        num >= 0,
        den > 0,
    ensures
        rounds_to(num, den, nearest(num, den)),
{
    lemma_rounds_to_below(num, den, INFINITY as int);
}

/// The search for the nearest pattern, downwards from `pattern`.
proof fn lemma_rounds_to_below(num: int, den: int, pattern: int)
    requires
        num >= 0,
        den > 0,
        0 <= pattern <= INFINITY,
        pattern < INFINITY ==> not_above(num, den, pattern),
    ensures
        exists|p: int| rounds_to(num, den, p),
    decreases pattern,
{
    if pattern == 0 || not_below(num, den, pattern) {
        assert(rounds_to(num, den, pattern));
    } else {
        assert(not_above(num, den, pattern - 1));
        lemma_rounds_to_below(num, den, pattern - 1);
    }
}

/// Comparing with `num / den` is comparing with an equal quotient.
proof fn lemma_equal_quotients(num: int, den: int, other_num: int, other_den: int, sum: int)
    requires
        den > 0,
        other_den > 0,
        num * other_den == den * other_num,
    ensures
        other_den * sum < 2 * other_num <==> den * sum < 2 * num,
        other_den * sum == 2 * other_num <==> den * sum == 2 * num,
{
    assert((den * sum) * other_den == den * (other_den * sum)) by (nonlinear_arith);
    assert((2 * num) * other_den == den * (2 * other_num)) by (nonlinear_arith)
        requires
            num * other_den == den * other_num,
    ;
    let a = den * sum;
    let b = 2 * num;
    let c = other_den * sum;
    let d = 2 * other_num;
    assert(a * other_den == den * c);
    assert(b * other_den == den * d);
    assert(c < d <==> den * c < den * d) by (nonlinear_arith)
        requires
            den > 0,
    ;
    assert(a < b <==> a * other_den < b * other_den) by (nonlinear_arith)
        requires
            other_den > 0,
    ;
    assert(c == d <==> den * c == den * d) by (nonlinear_arith)
        requires
            den > 0,
    ;
    assert(a == b <==> a * other_den == b * other_den) by (nonlinear_arith)
        requires
            other_den > 0,
    ;
}

/// Whether a significand that was cut off after `quotient` is rounded up: the
/// rest is more than half of the divisor, or half and `quotient` is odd.
pub open spec fn rounds_up(quotient: int, rest: int, divisor: int) -> bool {
    2 * rest > divisor || (2 * rest == divisor && quotient % 2 == 1)
}

/// A significand cut to its place and rounded gives the nearest pattern.
proof fn lemma_cut_significand(
    num: int,
    den: int,
    quotient: int,
    rest: int,
    divisor: int,
    exponent: int,
    pattern: int,
)
    requires
        den > 0,
        0 <= exponent,
        0 <= quotient < 2 * FRACTIONS,
        exponent == 0 || FRACTIONS <= quotient,
        0 <= rest < divisor,
        num * divisor == den * ((quotient * divisor + rest) * pow2(exponent)),
        pattern == exponent * FRACTIONS + quotient + (if rounds_up(quotient, rest, divisor) {
            1int
        } else {
            0int
        }),
    ensures
        0 <= pattern,
        pattern > 0 ==> not_below(num, den, pattern),
        not_above(num, den, pattern),
{
    let k = pow2(exponent);
    let f = FRACTIONS as int;
    let r = pattern - exponent * f;
    let m = quotient * divisor + rest;
    vstd::arithmetic::power2::lemma_pow2_pos(exponent as nat);
    assert(0 <= exponent * f) by (nonlinear_arith)
        requires
            0 <= exponent,
            0 < f,
    ;
    assert((exponent * f) % 2 == 0) by (nonlinear_arith)
        requires
            f == 2 * 0x0008_0000_0000_0000,
    ;
    assert(pattern % 2 == r % 2);
    lemma_magnitude_of_parts(exponent, r);
    assert(magnitude(pattern) == r * k);
    assert((2 * m) * k == 2 * (m * k)) by (nonlinear_arith);
    if pattern > 0 {
        let sum = magnitude(pattern - 1) + magnitude(pattern);
        lemma_equal_quotients(num, den, m * k, divisor, sum);
        if exponent == 0 || r > f {
            lemma_magnitude_of_parts(exponent, r - 1);
            assert(sum == (2 * r - 1) * k) by (nonlinear_arith)
                requires
                    sum == (r - 1) * k + r * k,
            ;
            lemma_compare_scaled(divisor, 2 * r - 1, 2 * m, k);
            assert(divisor * (2 * r - 1) < 2 * m || (divisor * (2 * r - 1) == 2 * m && r % 2 == 0))
                by (nonlinear_arith)
                requires
                    m == quotient * divisor + rest,
                    0 <= rest < divisor,
                    r == quotient || (r == quotient + 1 && (2 * rest > divisor || (2 * rest
                        == divisor && quotient % 2 == 1))),
            ;
        } else {
            lemma_magnitude_step(pattern - 1);
            assert(r == quotient);
            assert(divisor * sum < 2 * (m * k)) by (nonlinear_arith)
                requires
                    sum < 2 * (r * k),
                    r == quotient,
                    m == quotient * divisor + rest,
                    0 <= rest < divisor,
                    k > 0,
            ;
        }
    }
    let sum = magnitude(pattern) + magnitude(pattern + 1);
    lemma_equal_quotients(num, den, m * k, divisor, sum);
    if r < 2 * f {
        lemma_magnitude_of_parts(exponent, r + 1);
        assert(sum == (2 * r + 1) * k) by (nonlinear_arith)
            requires
                sum == (r + 1) * k + r * k,
        ;
        lemma_compare_scaled(divisor, 2 * r + 1, 2 * m, k);
        assert(divisor * (2 * r + 1) > 2 * m || (divisor * (2 * r + 1) == 2 * m && r % 2 == 0))
            by (nonlinear_arith)
            requires
                m == quotient * divisor + rest,
                0 <= rest < divisor,
                r == quotient + 1 || (r == quotient && (2 * rest < divisor || (2 * rest == divisor
                    && quotient % 2 == 0))),
        ;
    } else {
        lemma_magnitude_step(pattern);
        assert(r == quotient + 1);
        assert(divisor * sum > 2 * (m * k)) by (nonlinear_arith)
            requires
                sum > 2 * (r * k),
                r == quotient + 1,
                m == quotient * divisor + rest,
                0 <= rest < divisor,
                k > 0,
        ;
    }
}

/// A common factor does not change a comparison.
proof fn lemma_compare_scaled(a: int, b: int, c: int, factor: int)
    requires
        factor > 0,
    ensures
        a * (b * factor) < c * factor <==> a * b < c,
        a * (b * factor) == c * factor <==> a * b == c,
{
    assert(a * (b * factor) == (a * b) * factor) by (nonlinear_arith);
    let ab = a * b;
    assert(ab * factor < c * factor <==> ab < c) by (nonlinear_arith)
        requires
            factor > 0,
    ;
    assert(ab * factor == c * factor <==> ab == c) by (nonlinear_arith)
        requires
            factor > 0,
    ;
}

/// The significands that `nearest_pattern` takes stay below this: 2^107.
pub const SIGNIFICAND_LIMIT: u128 = 0x0800_0000_0000_0000_0000_0000_0000;

/// The pattern nearest to `significand * 2^exponent` units.
pub fn nearest_pattern(significand: u128, exponent: i64) -> (pattern: u64)
    requires
        significand < SIGNIFICAND_LIMIT,
        -4000 <= exponent <= 4000,
    ensures
        rounds_to(
            scaled_num(significand as int, exponent as int),
            scaled_den(exponent as int),
            pattern as int,
        ),
        pattern == nearest(
            scaled_num(significand as int, exponent as int),
            scaled_den(exponent as int),
        ),
{
    let ghost num = scaled_num(significand as int, exponent as int);
    let ghost den = scaled_den(exponent as int);
    proof {
        vstd::arithmetic::power2::lemma2_to64();
        vstd::arithmetic::power2::lemma_pow2_pos(-exponent as nat);
        assert(pow2(0) == 1);
        if exponent >= 0 {
            vstd::arithmetic::power2::lemma_pow2_pos(exponent as nat);
        }
    }
    if exponent <= -108 {
        proof {
            lemma_tiny(significand as int, exponent as int);
            lemma_nearest_is(num, den, 0);
        }
        return 0;
    }
    let mut m: u128 = significand;
    let mut e: i64 = exponent;
    // Shift left until the leading one is in its place, or no exponent is left.
    while m < FRACTIONS as u128 && e > 0
        invariant
            m < SIGNIFICAND_LIMIT,
            e <= 4000,
            e == exponent || e >= 0,
            exponent >= -107,
            num == scaled_num(m as int, e as int),
            den == scaled_den(e as int),
        decreases e,
    {
        proof {
            vstd::arithmetic::power2::lemma_pow2_unfold(e as nat);
            assert((2 * m) * pow2(e - 1) == m * pow2(e as int)) by (nonlinear_arith)
                requires
                    pow2(e as int) == 2 * pow2(e - 1),
            ;
        }
        m = m * 2;
        e = e - 1;
    }
    // Shift right until the significand fits, and no exponent is below zero.
    let mut shift: i64 = 0;
    let mut divisor: u128 = 1;
    while e + shift < 0 || m / divisor >= 2 * FRACTIONS as u128
        invariant
            m < SIGNIFICAND_LIMIT,
            -107 <= e <= 4000,
            0 <= shift <= 107,
            divisor == pow2(shift as int),
            0 < divisor <= SIGNIFICAND_LIMIT,
            shift == 0 ==> e <= 0 || m >= FRACTIONS,
            shift > 0 ==> e + shift <= 0 || m >= FRACTIONS * divisor,
        decreases 107 - shift,
    {
        proof {
            lemma_shift_room(m as int, e as int, shift as int, divisor as int);
            vstd::arithmetic::power2::lemma_pow2_unfold((shift + 1) as nat);
        }
        divisor = divisor * 2;
        shift = shift + 1;
    }
    let quotient: u128 = m / divisor;
    let rest: u128 = m % divisor;
    let exponent_field: i64 = e + shift;
    let up: bool = rest > divisor - rest || (rest == divisor - rest && quotient % 2 == 1);
    let ghost rounded = exponent_field * FRACTIONS + quotient + (if up {
        1int
    } else {
        0int
    });
    proof {
        vstd::arithmetic::div_mod::lemma_fundamental_div_mod(m as int, divisor as int);
        assert(quotient * divisor + rest == m) by (nonlinear_arith)
            requires
                m == divisor * quotient + rest,
        ;
        lemma_shifted_quotient(m as int, e as int, shift as int, num, den);
        if exponent_field > 0 {
            assert(quotient >= FRACTIONS) by (nonlinear_arith)
                requires
                    m == divisor * quotient + rest,
                    rest < divisor,
                    m >= FRACTIONS * divisor,
                    divisor > 0,
            ;
        }
        lemma_cut_significand(
            num,
            den,
            quotient as int,
            rest as int,
            divisor as int,
            exponent_field as int,
            rounded,
        );
    }
    if exponent_field >= 2046 {
        proof {
            lemma_rounds_to_infinity(num, den, rounded);
            lemma_nearest_is(num, den, INFINITY as int);
        }
        return INFINITY;
    }
    let mut pattern: u64 = exponent_field as u64 * FRACTIONS + quotient as u64;
    if up {
        pattern = pattern + 1;
    }
    if pattern > INFINITY {
        proof {
            lemma_rounds_to_infinity(num, den, rounded);
            lemma_nearest_is(num, den, INFINITY as int);
        }
        return INFINITY;
    }
    proof {
        lemma_nearest_is(num, den, pattern as int);
    }
    pattern
}

/// A pattern that a number rounds to is the nearest one.
pub proof fn lemma_nearest_is(num: int, den: int, pattern: int)
    requires
        den > 0,
        rounds_to(num, den, pattern),
    ensures
        nearest(num, den) == pattern,
{
    lemma_rounds_to_unique(num, den, nearest(num, den), pattern);
}

/// What is less than half a unit rounds to zero.
proof fn lemma_tiny(significand: int, exponent: int)
    requires
        0 <= significand < SIGNIFICAND_LIMIT,
        exponent <= -108,
    ensures
        rounds_to(scaled_num(significand, exponent), scaled_den(exponent), 0),
{
    vstd::arithmetic::power2::lemma2_to64();
    vstd::arithmetic::power2::lemma2_to64_rest();
    vstd::arithmetic::power2::lemma_pow2_adds(64, 44);
    assert(pow2(108) == 2 * SIGNIFICAND_LIMIT);
    if -exponent > 108 {
        vstd::arithmetic::power2::lemma_pow2_strictly_increases(108, -exponent as nat);
    }
    assert(magnitude(0) + magnitude(1) == 1);
}

/// The right shift ends before the divisor outgrows every significand.
proof fn lemma_shift_room(m: int, e: int, shift: int, divisor: int)
    requires
        0 <= m < SIGNIFICAND_LIMIT,
        -107 <= e,
        0 <= shift <= 107,
        divisor == pow2(shift),
        e + shift < 0 || m / divisor >= 2 * FRACTIONS,
    ensures
        shift < 107,
        2 * divisor <= SIGNIFICAND_LIMIT,
        m / divisor >= 2 * FRACTIONS ==> m >= FRACTIONS * (2 * divisor),
{
    vstd::arithmetic::power2::lemma2_to64();
    vstd::arithmetic::power2::lemma2_to64_rest();
    vstd::arithmetic::power2::lemma_pow2_adds(64, 43);
    assert(pow2(107) == SIGNIFICAND_LIMIT);
    vstd::arithmetic::power2::lemma_pow2_pos(shift as nat);
    if m / divisor >= 2 * FRACTIONS {
        vstd::arithmetic::div_mod::lemma_fundamental_div_mod(m, divisor);
        assert(m >= (2 * FRACTIONS) * divisor) by (nonlinear_arith)
            requires
                m == divisor * (m / divisor) + m % divisor,
                m % divisor >= 0,
                m / divisor >= 2 * FRACTIONS,
                divisor > 0,
        ;
        assert(m >= 2 * divisor) by (nonlinear_arith)
            requires
                m >= (2 * FRACTIONS) * divisor,
                FRACTIONS >= 1,
                divisor > 0,
        ;
        assert(shift < 107);
    }
    vstd::arithmetic::power2::lemma_pow2_unfold((shift + 1) as nat);
    if shift + 1 < 107 {
        vstd::arithmetic::power2::lemma_pow2_strictly_increases((shift + 1) as nat, 107);
    }
}

/// Dividing by `2^shift` and raising the exponent by `shift` keeps the number.
proof fn lemma_shifted_quotient(m: int, e: int, shift: int, num: int, den: int)
    requires
        0 <= m,
        0 <= shift,
        e + shift >= 0,
        num == scaled_num(m, e),
        den == scaled_den(e),
    ensures
        den > 0,
        num * pow2(shift) == den * (m * pow2(e + shift)),
{
    if e >= 0 {
        vstd::arithmetic::power2::lemma_pow2_adds(e as nat, shift as nat);
        assert(num * pow2(shift) == m * pow2(e + shift)) by (nonlinear_arith)
            requires
                num == m * pow2(e),
                pow2(e + shift) == pow2(e) * pow2(shift),
        ;
    } else {
        vstd::arithmetic::power2::lemma_pow2_pos(-e as nat);
        vstd::arithmetic::power2::lemma_pow2_adds(-e as nat, (e + shift) as nat);
        assert(-e + (e + shift) == shift);
        assert(num * pow2(shift) == den * (m * pow2(e + shift))) by (nonlinear_arith)
            requires
                num == m,
                den == pow2(-e),
                pow2(shift) == pow2(-e) * pow2(e + shift),
        ;
    }
}

/// Equal quotients round to the same pattern.
pub proof fn lemma_rounds_to_equal_quotients(
    num: int,
    den: int,
    other_num: int,
    other_den: int,
    pattern: int,
)
    requires
        den > 0,
        other_den > 0,
        num * other_den == den * other_num,
    ensures
        rounds_to(num, den, pattern) <==> rounds_to(other_num, other_den, pattern),
{
    lemma_equal_quotients(
        num,
        den,
        other_num,
        other_den,
        magnitude(pattern - 1) + magnitude(pattern),
    );
    lemma_equal_quotients(
        num,
        den,
        other_num,
        other_den,
        magnitude(pattern) + magnitude(pattern + 1),
    );
}

/// Where a scaled significand rounds to `pattern`, that pattern is nearest to
/// the significand scaled by `shift` more binary digits and divided by them.
pub proof fn lemma_rounds_to_shifted(significand: int, exponent: int, shift: int, pattern: int)
    requires
        0 <= significand,
        0 <= shift,
        exponent + shift >= 0,
        rounds_to(scaled_num(significand, exponent), scaled_den(exponent), pattern),
    ensures
        nearest(significand * pow2(exponent + shift), pow2(shift)) == pattern,
{
    let num = scaled_num(significand, exponent);
    let den = scaled_den(exponent);
    let other_num = significand * pow2(exponent + shift);
    vstd::arithmetic::power2::lemma_pow2_pos(shift as nat);
    lemma_shifted_quotient(significand, exponent, shift, num, den);
    lemma_rounds_to_equal_quotients(num, den, other_num, pow2(shift), pattern);
    lemma_nearest_is(other_num, pow2(shift), pattern);
}

/// The product of two significands is a significand that can be rounded.
pub proof fn lemma_significand_product(one: int, other: int)
    requires
        0 <= one < 2 * FRACTIONS,
        0 <= other < 2 * FRACTIONS,
    ensures
        0 <= one * other < SIGNIFICAND_LIMIT,
{
    assert(0 <= one * other <= 0x0020_0000_0000_0000 * 0x0020_0000_0000_0000) by (nonlinear_arith)
        requires
            0 <= one < 0x0020_0000_0000_0000,
            0 <= other < 0x0020_0000_0000_0000,
    ;
}

/// Significands are multiplied, exponents added.
pub proof fn lemma_magnitude_product(one: int, other: int)
    requires
        0 <= one,
        0 <= other,
    ensures
        (significand_of(one) * significand_of(other)) * pow2(exponent_of(one) + exponent_of(other))
            == magnitude(one) * magnitude(other),
{
    lemma_parts(one);
    lemma_parts(other);
    let s = significand_of(one);
    let t = significand_of(other);
    let d = exponent_of(one);
    let e = exponent_of(other);
    vstd::arithmetic::power2::lemma_pow2_adds(d as nat, e as nat);
    assert((s * t) * (pow2(d) * pow2(e)) == (s * pow2(d)) * (t * pow2(e))) by (nonlinear_arith);
}

/// Comparing two patterns is comparing the numbers that they stand for.
pub proof fn lemma_magnitude_ordered(one: int, other: int)
    requires
        0 <= one,
        0 <= other,
    ensures
        one < other <==> magnitude(one) < magnitude(other),
        one == other <==> magnitude(one) == magnitude(other),
        0 <= magnitude(one),
        0 <= magnitude(other),
        magnitude(one) == 0 <==> one == 0,
        magnitude(other) == 0 <==> other == 0,
{
    lemma_magnitude_nonnegative(one);
    lemma_magnitude_nonnegative(other);
    if one < other {
        lemma_magnitude_increases(one, other);
    } else if other < one {
        lemma_magnitude_increases(other, one);
    }
}

/// A number that a pattern stands for rounds to that pattern.
pub proof fn lemma_nearest_exact(pattern: int, num: int, den: int)
    requires
        0 <= pattern <= INFINITY,
        den > 0,
        num == magnitude(pattern) * den,
    ensures
        nearest(num, den) == pattern,
{
    let here = magnitude(pattern);
    if pattern > 0 {
        lemma_magnitude_step(pattern - 1);
        let before = magnitude(pattern - 1);
        assert(den * (before + here) < 2 * (here * den)) by (nonlinear_arith)
            requires
                den > 0,
                before < here,
        ;
    }
    lemma_magnitude_step(pattern);
    let after = magnitude(pattern + 1);
    assert(2 * (here * den) < den * (here + after)) by (nonlinear_arith)
        requires
            den > 0,
            here < after,
    ;
    lemma_nearest_is(num, den, pattern);
}

/// Nothing rounds to nothing.
pub proof fn lemma_nearest_zero(factor: int, den: int)
    requires
        den > 0,
    ensures
        factor * 0 == 0,
        nearest(factor * 0, den) == 0,
{
    assert(factor * 0 == 0 && magnitude(0) * den == 0) by (nonlinear_arith)
        requires
            magnitude(0) == 0,
    ;
    lemma_nearest_exact(0, 0, den);
}

/// Every whole number of at most 53 binary digits, scaled by a power of two, is
/// a number that a pattern stands for.
pub proof fn lemma_representable(significand: int, exponent: int) -> (pattern: int)
    requires
        0 <= significand <= 2 * FRACTIONS,
        0 <= exponent,
    ensures
        0 <= pattern <= exponent * FRACTIONS + 2 * FRACTIONS,
        magnitude(pattern) == significand * pow2(exponent),
    decreases exponent,
{
    let f = FRACTIONS as int;
    if exponent == 0 || significand >= f {
        lemma_magnitude_of_parts(exponent, significand);
        assert(0 <= exponent * f) by (nonlinear_arith)
            requires
                0 <= exponent,
                0 < f,
        ;
        exponent * f + significand
    } else {
        vstd::arithmetic::power2::lemma_pow2_unfold(exponent as nat);
        assert((2 * significand) * pow2(exponent - 1) == significand * pow2(exponent))
            by (nonlinear_arith)
            requires
                pow2(exponent) == 2 * pow2(exponent - 1),
        ;
        assert((exponent - 1) * f <= exponent * f) by (nonlinear_arith)
            requires
                0 < f,
        ;
        lemma_representable(2 * significand, exponent - 1)
    }
}

/// Rounding keeps the order of numbers.
pub proof fn lemma_nearest_monotone(lower: int, upper: int, den: int)
    requires
        0 <= lower <= upper,
        den > 0,
    ensures
        nearest(lower, den) <= nearest(upper, den),
{
    let p = nearest(lower, den);
    let q = nearest(upper, den);
    lemma_rounds_to_exists(lower, den);
    lemma_rounds_to_exists(upper, den);
    if q < p {
        let a = magnitude(p - 1) + magnitude(p);
        let b = magnitude(q) + magnitude(q + 1);
        if q < p - 1 {
            lemma_magnitude_increases(q, p - 1);
            lemma_magnitude_increases(q + 1, p);
        }
        assert(den * b <= den * a) by (nonlinear_arith)
            requires
                den > 0,
                b <= a,
        ;
        lemma_rounds_to_unique(lower, den, p, q);
    }
}

/// Where a number is at most what `pattern` stands for, so is its rounding.
pub proof fn lemma_nearest_at_most(num: int, den: int, pattern: int)
    requires
        0 <= num,
        den > 0,
        0 <= pattern <= INFINITY,
        num <= magnitude(pattern) * den,
    ensures
        0 <= nearest(num, den) <= pattern,
{
    lemma_rounds_to_exists(num, den);
    lemma_nearest_exact(pattern, magnitude(pattern) * den, den);
    lemma_nearest_monotone(num, magnitude(pattern) * den, den);
}

/// Where a number is at least what `pattern` stands for, so is its rounding.
pub proof fn lemma_nearest_at_least(num: int, den: int, pattern: int)
    requires
        den > 0,
        0 <= pattern <= INFINITY,
        magnitude(pattern) * den <= num,
    ensures
        pattern <= nearest(num, den) <= INFINITY,
{
    lemma_magnitude_nonnegative(pattern);
    assert(0 <= magnitude(pattern) * den) by (nonlinear_arith)
        requires
            0 <= magnitude(pattern),
            0 < den,
    ;
    lemma_rounds_to_exists(num, den);
    lemma_nearest_exact(pattern, magnitude(pattern) * den, den);
    lemma_nearest_monotone(magnitude(pattern) * den, num, den);
}

/// Equal quotients have the same nearest pattern.
pub proof fn lemma_nearest_equal_quotients(num: int, den: int, other_num: int, other_den: int)
    requires
        0 <= num,
        den > 0,
        other_den > 0,
        num * other_den == den * other_num,
    ensures
        nearest(num, den) == nearest(other_num, other_den),
{
    lemma_rounds_to_exists(num, den);
    lemma_rounds_to_equal_quotients(num, den, other_num, other_den, nearest(num, den));
    lemma_nearest_is(other_num, other_den, nearest(num, den));
}

/// The significand and the exponent of a pattern.
pub fn parts(pattern: u64) -> (parts: (u64, u64))
    requires
        pattern <= INFINITY,
    ensures
        parts.0 == significand_of(pattern as int),
        parts.1 == exponent_of(pattern as int),
        parts.0 < 2 * FRACTIONS,
        parts.1 <= 2046,
        magnitude(pattern as int) == parts.0 * pow2(parts.1 as int),
{
    proof {
        lemma_parts(pattern as int);
    }
    if pattern < FRACTIONS {
        (pattern, 0)
    } else {
        let exponent: u64 = pattern / FRACTIONS - 1;
        (pattern - exponent * FRACTIONS, exponent)
    }
}

/// Patterns are read as binary64 numbers are: an exponent above a fraction of
/// 52 bits, with a leading one unless the exponent is zero.
pub proof fn law_a_pattern_is_an_exponent_and_a_fraction(exponent: int, fraction: int)
    requires
        0 <= exponent,
        0 <= fraction < 0x0010_0000_0000_0000,
    ensures
        exponent == 0 ==> magnitude(fraction) == fraction,
        exponent > 0 ==> magnitude(exponent * 0x0010_0000_0000_0000 + fraction) == (
        0x0010_0000_0000_0000 + fraction) * vstd::arithmetic::power2::pow2((exponent - 1) as nat),
{
    if exponent > 0 {
        let f = FRACTIONS as int;
        lemma_magnitude_of_parts(exponent - 1, f + fraction);
        assert((exponent - 1) * f + (f + fraction) == exponent * f + fraction) by (nonlinear_arith);
    }
}

/// A larger pattern stands for a larger number, and the one of zero for zero.
pub proof fn law_patterns_are_ordered(one: int, other: int)
    requires
        0 <= one,
        0 <= other,
    ensures
        one < other <==> magnitude(one) < magnitude(other),
        magnitude(0) == 0,
{
    lemma_magnitude_ordered(one, other);
}

/// No other pattern is closer to a number than the one that it is rounded to,
/// and where another is as close the one that it is rounded to is even.
pub proof fn law_the_nearest_is_the_closest(num: int, den: int, other: int)
    requires
        0 <= num,
        0 < den,
        0 <= other <= INFINITY,
    ensures
        0 <= nearest(num, den) <= INFINITY,
        distance(num, den * magnitude(nearest(num, den))) <= distance(num, den * magnitude(other)),
        distance(num, den * magnitude(nearest(num, den))) == distance(num, den * magnitude(other))
            && other != nearest(num, den) ==> nearest(num, den) % 2 == 0,
{
    let p = nearest(num, den);
    let here = magnitude(p);
    let there = magnitude(other);
    lemma_rounds_to_exists(num, den);
    if other < p {
        let before = magnitude(p - 1);
        lemma_magnitude_step(p - 1);
        lemma_magnitude_ordered(other, p - 1);
        assert(den * there <= den * before < den * here && den * (before + here) == den * before
            + den * here) by (nonlinear_arith)
            requires
                den > 0,
                there <= before < here,
        ;
    } else if p < other {
        let after = magnitude(p + 1);
        lemma_magnitude_step(p);
        lemma_magnitude_ordered(p + 1, other);
        assert(den * here < den * after <= den * there && den * (here + after) == den * here + den
            * after) by (nonlinear_arith)
            requires
                den > 0,
                here < after <= there,
        ;
    }
}

/// How far two numbers are apart.
pub open spec fn distance(one: int, other: int) -> int {
    if one < other {
        other - one
    } else {
        one - other
    }
}

/// No other pattern is closer to a scaled significand than the one that it is
/// rounded to, and where another is as close the one that it is rounded to is
/// even.
pub proof fn law_a_scaled_significand_is_rounded_to_the_closest(
    significand: u128,
    exponent: i64,
    pattern: u64,
    other: int,
)
    requires
        call_requires(nearest_pattern, (significand, exponent)),
        call_ensures(nearest_pattern, (significand, exponent), pattern),
        0 <= other <= INFINITY,
    ensures
        pattern <= INFINITY,
        ({
            let num = if exponent >= 0 {
                significand * pow2(exponent as int)
            } else {
                significand as int
            };
            let den = if exponent >= 0 {
                1
            } else {
                pow2(-exponent as int)
            };
            let off = distance(num, den * magnitude(pattern as int));
            let other_off = distance(num, den * magnitude(other));
            &&& off <= other_off
            &&& off == other_off && other != pattern ==> pattern % 2 == 0
        }),
{
    let num = scaled_num(significand as int, exponent as int);
    let den = scaled_den(exponent as int);
    if exponent >= 0 {
        let p = pow2(exponent as int);
        vstd::arithmetic::power2::lemma_pow2_pos(exponent as nat);
        assert(significand * p >= 0) by (nonlinear_arith)
            requires
                p > 0,
        ;
    } else {
        vstd::arithmetic::power2::lemma_pow2_pos((-exponent) as nat);
    }
    law_the_nearest_is_the_closest(num, den, other);
}

} // verus!
