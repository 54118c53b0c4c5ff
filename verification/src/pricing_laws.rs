//! What holds of the cost of every query.

use crate::amount::Amount;
use crate::pricing::{calculate_cost, exceeds_budget, BYTES_PER_TIB};
use crate::rounding::{FRACTIONS, INFINITY};
use vstd::prelude::*;

verus! {

/// The pattern of 2^power.
pub open spec fn pattern_of_power(power: int) -> int {
    (1023 + power) * FRACTIONS
}

proof fn lemma_pattern_of_power(power: int)
    requires
        -1022 <= power,
    ensures
        crate::rounding::magnitude(pattern_of_power(power)) == crate::rounding::pow2(1074 + power),
{
    let f = FRACTIONS as int;
    crate::rounding::lemma_magnitude_of_parts(1022 + power, f);
    assert((1022 + power) * f + f == (1023 + power) * f) by (nonlinear_arith);
    vstd::arithmetic::power2::lemma2_to64_rest();
    vstd::arithmetic::power2::lemma_pow2_adds(52, (1022 + power) as nat);
}

/// The bytes of a query, as a binary64 number, are at least one and at most
/// 2^64 where there are any.
proof fn lemma_whole_bounds(bytes: u64)
    requires
        bytes > 0,
    ensures
        pattern_of_power(0) <= crate::pricing::whole(bytes as int) <= pattern_of_power(64),
{
    let unit = crate::rounding::pow2(1074);
    let num = bytes * unit;
    vstd::arithmetic::power2::lemma_pow2_pos(1074);
    lemma_pattern_of_power(0);
    lemma_pattern_of_power(64);
    vstd::arithmetic::power2::lemma_pow2_adds(64, 1074);
    vstd::arithmetic::power2::lemma2_to64();
    assert(unit <= num <= 0x1_0000_0000_0000_0000 * unit) by (nonlinear_arith)
        requires
            num == bytes * unit,
            1 <= bytes <= 0x1_0000_0000_0000_0000,
            unit > 0,
    ;
    crate::rounding::lemma_nearest_at_least(num, 1, pattern_of_power(0));
    crate::rounding::lemma_nearest_at_most(num, 1, pattern_of_power(64));
}

/// Dividing the bytes of a query by the bytes in a tebibyte loses nothing.
pub proof fn law_tebibytes_are_exact(bytes: u64)
    ensures
        crate::rounding::magnitude(crate::pricing::tebibytes(bytes as int)) * BYTES_PER_TIB
            == crate::rounding::magnitude(crate::pricing::whole(bytes as int)),
        0 <= crate::pricing::tebibytes(bytes as int) <= pattern_of_power(24),
{
    let f = FRACTIONS as int;
    let w = crate::pricing::whole(bytes as int);
    if bytes == 0 {
        assert(bytes * crate::rounding::pow2(1074) == 0) by (nonlinear_arith)
            requires
                bytes == 0,
        ;
        crate::rounding::lemma_nearest_exact(0, 0, 1);
        crate::rounding::lemma_nearest_exact(0, 0, BYTES_PER_TIB as int);
    } else {
        lemma_whole_bounds(bytes);
        crate::rounding::lemma_parts(w);
        let e = crate::rounding::exponent_of(w);
        let s = crate::rounding::significand_of(w);
        assert(e >= 1022);
        let p = (e - 40) * f + s;
        assert(p == w - 40 * f) by (nonlinear_arith)
            requires
                p == (e - 40) * f + s,
                s == w - e * f,
        ;
        crate::rounding::lemma_magnitude_of_parts(e - 40, s);
        vstd::arithmetic::power2::lemma2_to64_rest();
        vstd::arithmetic::power2::lemma_pow2_adds((e - 40) as nat, 40);
        assert((s * crate::rounding::pow2(e - 40)) * BYTES_PER_TIB == s * crate::rounding::pow2(e))
            by (nonlinear_arith)
            requires
                crate::rounding::pow2(e) == crate::rounding::pow2(e - 40) * BYTES_PER_TIB,
        ;
        crate::rounding::lemma_nearest_exact(
            p,
            crate::rounding::magnitude(w),
            BYTES_PER_TIB as int,
        );
    }
}

/// A scan of at most 2^53 bytes is billed exactly, rounded once: its cost is
/// nearest to the price times the bytes, divided by the bytes in a tebibyte.
pub proof fn law_cost_is_rounded_once(bytes: u64, price: Amount, cost: Amount)
    requires
        bytes <= 2 * FRACTIONS,
        price.is_finite(),
        crate::pricing::is_cost(bytes as int, price, cost),
    ensures
        cost.pattern() == crate::rounding::nearest(
            bytes * crate::rounding::magnitude(price.pattern()),
            BYTES_PER_TIB as int,
        ),
{
    let unit = crate::rounding::pow2(1074);
    let t = crate::rounding::magnitude(crate::pricing::tebibytes(bytes as int));
    let m = crate::rounding::magnitude(price.pattern());
    let p = crate::rounding::lemma_representable(bytes as int, 1074);
    crate::rounding::lemma_nearest_exact(p, bytes * unit, 1);
    law_tebibytes_are_exact(bytes);
    assert(t * BYTES_PER_TIB == bytes * unit);
    vstd::arithmetic::power2::lemma_pow2_pos(1074);
    crate::rounding::lemma_magnitude_nonnegative(price.pattern());
    assert(0 <= bytes * m) by (nonlinear_arith)
        requires
            0 <= m,
            0 <= bytes,
    ;
    assert((bytes * m) * unit == BYTES_PER_TIB * (t * m)) by (nonlinear_arith)
        requires
            t * BYTES_PER_TIB == bytes * unit,
    ;
    crate::rounding::lemma_nearest_equal_quotients(
        bytes * m,
        BYTES_PER_TIB as int,
        t * m,
        unit,
    );
}

/// One tebibyte costs exactly the configured price, whatever number that is.
pub proof fn law_one_tebibyte_costs_the_price(price: Amount, cost: Amount)
    requires
        !price.is_nan(),
        crate::pricing::is_cost(BYTES_PER_TIB as int, price, cost),
    ensures
        cost == price,
{
    if price.is_finite() {
        let m = crate::rounding::magnitude(price.pattern());
        law_cost_is_rounded_once(BYTES_PER_TIB, price, cost);
        crate::rounding::lemma_nearest_exact(
            price.pattern(),
            BYTES_PER_TIB * m,
            BYTES_PER_TIB as int,
        );
    }
}

/// Half a tebibyte costs half the price, rounded where the half of it is no
/// binary64 number.
pub proof fn law_half_a_tebibyte_costs_half_the_price(price: Amount, cost: Amount)
    requires
        price.is_finite(),
        crate::pricing::is_cost(BYTES_PER_TIB as int / 2, price, cost),
    ensures
        cost.pattern() == crate::rounding::nearest(
            crate::rounding::magnitude(price.pattern()),
            2,
        ),
        price.pattern() >= 2 * FRACTIONS ==> 2 * cost.units() == price.units(),
{
    let half: u64 = BYTES_PER_TIB / 2;
    let p = price.pattern();
    let m = crate::rounding::magnitude(p);
    law_cost_is_rounded_once(half, price, cost);
    crate::rounding::lemma_magnitude_nonnegative(p);
    assert((half * m) * 2 == BYTES_PER_TIB * m) by (nonlinear_arith)
        requires
            half * 2 == BYTES_PER_TIB,
    ;
    crate::rounding::lemma_nearest_equal_quotients(half * m, BYTES_PER_TIB as int, m, 2);
    if p >= 2 * FRACTIONS {
        crate::rounding::lemma_parts(p);
        let e = crate::rounding::exponent_of(p);
        let s = crate::rounding::significand_of(p);
        crate::rounding::lemma_magnitude_of_parts(e - 1, s);
        vstd::arithmetic::power2::lemma_pow2_unfold(e as nat);
        let q = (e - 1) * FRACTIONS + s;
        assert((s * crate::rounding::pow2(e - 1)) * 2 == s * crate::rounding::pow2(e))
            by (nonlinear_arith)
            requires
                crate::rounding::pow2(e) == 2 * crate::rounding::pow2(e - 1),
        ;
        assert(q == p - FRACTIONS) by (nonlinear_arith)
            requires
                q == (e - 1) * FRACTIONS + s,
                s == p - e * FRACTIONS,
        ;
        crate::rounding::lemma_nearest_exact(q, m, 2);
    }
}

/// A query that scans nothing costs nothing, at any finite price.
pub proof fn law_zero_bytes_cost_nothing(price: Amount, cost: Amount)
    requires
        price.is_finite(),
        crate::pricing::is_cost(0, price, cost),
    ensures
        cost.is_finite(),
        cost.units() == 0,
{
    law_cost_is_rounded_once(0, price, cost);
    crate::rounding::lemma_nearest_exact(0, 0, BYTES_PER_TIB as int);
}

/// At a price of zero every query costs nothing.
pub proof fn law_zero_price_means_zero_cost(bytes: u64, price: Amount, cost: Amount)
    requires
        price.pattern() == 0,
        crate::pricing::is_cost(bytes as int, price, cost),
    ensures
        cost.is_finite(),
        cost.units() == 0,
{
    vstd::arithmetic::power2::lemma_pow2_pos(1074);
    crate::rounding::lemma_nearest_zero(
        crate::rounding::magnitude(crate::pricing::tebibytes(bytes as int)),
        crate::rounding::pow2(1074),
    );
}

/// At a finite price every query costs a number.
pub proof fn law_finite_price_means_a_cost(bytes: u64, price: Amount, cost: Amount)
    requires
        price.is_finite(),
        crate::pricing::is_cost(bytes as int, price, cost),
    ensures
        !cost.is_nan(),
{
    vstd::arithmetic::power2::lemma_pow2_pos(1074);
    law_tebibytes_are_exact(bytes);
    lemma_product_nonnegative(crate::pricing::tebibytes(bytes as int), price.pattern());
    crate::rounding::lemma_rounds_to_exists(
        crate::rounding::magnitude(crate::pricing::tebibytes(bytes as int))
            * crate::rounding::magnitude(price.pattern()),
        crate::rounding::pow2(1074),
    );
}

proof fn lemma_product_nonnegative(one: int, other: int)
    requires
        0 <= one,
        0 <= other,
    ensures
        0 <= crate::rounding::magnitude(one) * crate::rounding::magnitude(other),
{
    let m = crate::rounding::magnitude(one);
    let n = crate::rounding::magnitude(other);
    crate::rounding::lemma_magnitude_nonnegative(one);
    crate::rounding::lemma_magnitude_nonnegative(other);
    assert(0 <= m * n) by (nonlinear_arith)
        requires
            0 <= m,
            0 <= n,
    ;
}

/// However many bytes a query scans, at a price below 2^999 its cost is finite.
pub proof fn law_cost_does_not_overflow(bytes: u64, price: Amount, cost: Amount)
    requires
        price.pattern() < pattern_of_power(999),
        crate::pricing::is_cost(bytes as int, price, cost),
    ensures
        cost.is_finite(),
{
    let unit = crate::rounding::pow2(1074);
    let t = crate::rounding::magnitude(crate::pricing::tebibytes(bytes as int));
    let m = crate::rounding::magnitude(price.pattern());
    vstd::arithmetic::power2::lemma_pow2_pos(1074);
    law_tebibytes_are_exact(bytes);
    lemma_product_nonnegative(crate::pricing::tebibytes(bytes as int), price.pattern());
    lemma_pattern_of_power(24);
    lemma_pattern_of_power(999);
    lemma_pattern_of_power(1023);
    crate::rounding::lemma_magnitude_ordered(
        crate::pricing::tebibytes(bytes as int),
        pattern_of_power(24),
    );
    crate::rounding::lemma_magnitude_ordered(price.pattern(), pattern_of_power(999));
    vstd::arithmetic::power2::lemma_pow2_adds(1098, 2073);
    vstd::arithmetic::power2::lemma_pow2_adds(1074, 2097);
    let a = crate::rounding::pow2(1098);
    let b = crate::rounding::pow2(2073);
    let c = crate::rounding::pow2(2097);
    assert(t * m <= c * unit) by (nonlinear_arith)
        requires
            0 <= t <= a,
            0 <= m <= b,
            a * b == unit * c,
    ;
    crate::rounding::lemma_nearest_at_most(t * m, unit, pattern_of_power(1023));
}

/// A query that scans anything costs something, at a price of 2^-1034 or more.
pub proof fn law_a_scan_costs_something(bytes: u64, price: Amount, cost: Amount)
    requires
        bytes > 0,
        !price.is_negative(),
        !price.is_nan(),
        price.units() >= BYTES_PER_TIB,
        crate::pricing::is_cost(bytes as int, price, cost),
    ensures
        !cost.is_nan(),
        cost.units() > 0,
{
    if price.is_finite() {
        let unit = crate::rounding::pow2(1074);
        let w = crate::rounding::magnitude(crate::pricing::whole(bytes as int));
        let t = crate::rounding::magnitude(crate::pricing::tebibytes(bytes as int));
        let m = crate::rounding::magnitude(price.pattern());
        vstd::arithmetic::power2::lemma_pow2_pos(1074);
        law_finite_price_means_a_cost(bytes, price, cost);
        law_tebibytes_are_exact(bytes);
        lemma_whole_bounds(bytes);
        lemma_pattern_of_power(0);
        crate::rounding::lemma_magnitude_ordered(
            pattern_of_power(0),
            crate::pricing::whole(bytes as int),
        );
        crate::rounding::lemma_magnitude_nonnegative(crate::pricing::tebibytes(bytes as int));
        assert(unit <= t * m) by (nonlinear_arith)
            requires
                unit <= w,
                t * BYTES_PER_TIB == w,
                m >= BYTES_PER_TIB,
                t >= 0,
        ;
        assert(crate::rounding::magnitude(1) * unit == unit) by (nonlinear_arith)
            requires
                crate::rounding::magnitude(1) == 1,
        ;
        crate::rounding::lemma_nearest_at_least(t * m, unit, 1);
        crate::rounding::lemma_magnitude_increases(0, cost.pattern());
    } else {
        crate::rounding::lemma_magnitude_increases(0, INFINITY as int);
    }
}

/// A query that scans more never costs less, at a price that is not negative.
pub proof fn law_cost_grows_with_bytes(
    fewer: u64,
    more: u64,
    price: Amount,
    lower: Amount,
    higher: Amount,
)
    requires
        fewer <= more,
        !price.is_negative(),
        crate::pricing::is_cost(fewer as int, price, lower),
        crate::pricing::is_cost(more as int, price, higher),
    ensures
        !crate::pricing::exceeds(lower, higher),
{
    if price.is_finite() {
        let unit = crate::rounding::pow2(1074);
        let m = crate::rounding::magnitude(price.pattern());
        vstd::arithmetic::power2::lemma_pow2_pos(1074);
        assert(0 <= fewer * unit <= more * unit) by (nonlinear_arith)
            requires
                0 <= fewer <= more,
                0 < unit,
        ;
        crate::rounding::lemma_nearest_monotone(fewer * unit, more * unit, 1);
        crate::rounding::lemma_rounds_to_exists(fewer * unit, 1);
        crate::rounding::lemma_magnitude_ordered(
            crate::pricing::whole(fewer as int),
            crate::pricing::whole(more as int),
        );
        crate::rounding::lemma_nearest_monotone(
            crate::rounding::magnitude(crate::pricing::whole(fewer as int)),
            crate::rounding::magnitude(crate::pricing::whole(more as int)),
            BYTES_PER_TIB as int,
        );
        law_tebibytes_are_exact(fewer);
        crate::rounding::lemma_magnitude_ordered(
            crate::pricing::tebibytes(fewer as int),
            crate::pricing::tebibytes(more as int),
        );
        crate::rounding::lemma_magnitude_nonnegative(price.pattern());
        let a = crate::rounding::magnitude(crate::pricing::tebibytes(fewer as int));
        let b = crate::rounding::magnitude(crate::pricing::tebibytes(more as int));
        assert(0 <= a * m <= b * m) by (nonlinear_arith)
            requires
                0 <= a <= b,
                0 <= m,
        ;
        crate::rounding::lemma_nearest_monotone(a * m, b * m, unit);
        crate::rounding::lemma_rounds_to_exists(a * m, unit);
        crate::rounding::lemma_magnitude_ordered(lower.pattern(), higher.pattern());
    }
}

/// A higher price never makes a query cheaper.
pub proof fn law_cost_grows_with_price(
    bytes: u64,
    cheaper: Amount,
    dearer: Amount,
    lower: Amount,
    higher: Amount,
)
    requires
        !cheaper.is_negative(),
        !dearer.is_nan(),
        !crate::pricing::exceeds(cheaper, dearer),
        crate::pricing::is_cost(bytes as int, cheaper, lower),
        crate::pricing::is_cost(bytes as int, dearer, higher),
    ensures
        !crate::pricing::exceeds(lower, higher),
{
    let unit = crate::rounding::pow2(1074);
    let t = crate::rounding::magnitude(crate::pricing::tebibytes(bytes as int));
    let a = crate::rounding::magnitude(cheaper.pattern());
    let b = crate::rounding::magnitude(dearer.pattern());
    vstd::arithmetic::power2::lemma_pow2_pos(1074);
    law_tebibytes_are_exact(bytes);
    crate::rounding::lemma_magnitude_nonnegative(crate::pricing::tebibytes(bytes as int));
    crate::rounding::lemma_magnitude_ordered(cheaper.pattern(), dearer.pattern());
    if !cheaper.is_nan() && cheaper.is_finite() {
        assert(0 <= t * a) by (nonlinear_arith)
            requires
                0 <= t,
                0 <= a,
        ;
        crate::rounding::lemma_rounds_to_exists(t * a, unit);
        if dearer.is_finite() {
            assert(dearer.is_negative() ==> a == 0 && b == 0);
            assert(t * a <= t * b) by (nonlinear_arith)
                requires
                    0 <= t,
                    a <= b,
            ;
            crate::rounding::lemma_nearest_monotone(t * a, t * b, unit);
            if dearer.is_negative() {
                crate::rounding::lemma_nearest_zero(t, unit);
            }
        }
        crate::rounding::lemma_magnitude_ordered(lower.pattern(), higher.pattern());
    }
}

/// The budget is a strict limit: a cost exactly equal to the limit, or below
/// it, is allowed through.
pub proof fn law_the_limit_itself_is_allowed(cost: Amount, max_cost: Amount)
    requires
        cost.units() <= max_cost.units(),
    ensures
        !crate::pricing::exceeds(cost, max_cost),
{
}

/// Whatever exceeds a limit exceeds every lower one.
pub proof fn law_exceeding_is_transitive(cost: Amount, limit: Amount, lower_limit: Amount)
    requires
        crate::pricing::exceeds(cost, limit),
        crate::pricing::exceeds(limit, lower_limit),
    ensures
        crate::pricing::exceeds(cost, lower_limit),
        !crate::pricing::exceeds(limit, cost),
{
}

/// A query costs the price of a tebibyte, times its bytes as a binary64 number,
/// divided by 2^40, and rounded once more. The sign is that of the price. Where
/// the price is infinite so is the cost of any scan, and where there is no price
/// or nothing is scanned at an infinite one there is no cost.
pub proof fn law_a_cost_is_a_share_of_the_price(bytes: u64, price: Amount, cost: Amount)
    requires
        call_ensures(calculate_cost, (bytes, price), cost),
    ensures
        price.is_nan() ==> cost.is_nan(),
        price.is_infinite() && bytes == 0 ==> cost.is_nan(),
        price.is_infinite() && bytes > 0 ==> cost == price,
        price.is_finite() ==> {
            &&& !cost.is_nan()
            &&& cost.is_negative() == price.is_negative()
            &&& cost.pattern() == crate::rounding::nearest(
                crate::rounding::magnitude(
                    crate::rounding::nearest(bytes * crate::rounding::pow2(1074), 1),
                ) * crate::rounding::magnitude(price.pattern()),
                1_099_511_627_776 * crate::rounding::pow2(1074),
            )
        },
{
    if price.is_finite() {
        let unit = crate::rounding::pow2(1074);
        let b = BYTES_PER_TIB as int;
        let w = crate::rounding::magnitude(crate::pricing::whole(bytes as int));
        let t = crate::rounding::magnitude(crate::pricing::tebibytes(bytes as int));
        let m = crate::rounding::magnitude(price.pattern());
        vstd::arithmetic::power2::lemma_pow2_pos(1074);
        law_finite_price_means_a_cost(bytes, price, cost);
        law_tebibytes_are_exact(bytes);
        lemma_product_nonnegative(crate::pricing::tebibytes(bytes as int), price.pattern());
        assert((t * m) * (b * unit) == unit * (w * m)) by (nonlinear_arith)
            requires
                t * b == w,
        ;
        assert(b * unit > 0) by (nonlinear_arith)
            requires
                b > 0,
                unit > 0,
        ;
        crate::rounding::lemma_nearest_equal_quotients(t * m, unit, w * m, b * unit);
    }
}

/// A scan of at most 2^53 bytes costs its share of the price, rounded once.
pub proof fn law_a_scan_costs_its_share(bytes: u64, price: Amount, cost: Amount)
    requires
        bytes <= 0x0020_0000_0000_0000,
        price.is_finite(),
        call_ensures(calculate_cost, (bytes, price), cost),
    ensures
        cost.is_negative() == price.is_negative(),
        cost.pattern() == crate::rounding::nearest(
            bytes * crate::rounding::magnitude(price.pattern()),
            1_099_511_627_776,
        ),
{
    law_cost_is_rounded_once(bytes, price, cost);
}

/// At the opposite price a query costs the opposite.
pub proof fn law_the_opposite_price_means_the_opposite_cost(
    bytes: u64,
    price: Amount,
    opposite: Amount,
    cost: Amount,
    opposite_cost: Amount,
)
    requires
        opposite.bits == price.bits + 0x8000_0000_0000_0000,
        call_ensures(calculate_cost, (bytes, price), cost),
        call_ensures(calculate_cost, (bytes, opposite), opposite_cost),
    ensures
        cost.is_nan() == opposite_cost.is_nan(),
        !cost.is_nan() ==> opposite_cost.bits == cost.bits + 0x8000_0000_0000_0000,
{
}

/// Amounts compare as their bits do, those of a negative one downwards from
/// zero. What is not a number exceeds nothing, and nothing exceeds it.
pub proof fn law_amounts_compare_as_their_bits(cost: Amount, max_cost: Amount, too_expensive: bool)
    requires
        call_ensures(exceeds_budget, (cost, max_cost), too_expensive),
    ensures
        too_expensive == ({
            let one: int = if cost.bits < 0x8000_0000_0000_0000 {
                cost.bits as int
            } else {
                0x8000_0000_0000_0000 - cost.bits
            };
            let other: int = if max_cost.bits < 0x8000_0000_0000_0000 {
                max_cost.bits as int
            } else {
                0x8000_0000_0000_0000 - max_cost.bits
            };
            &&& -0x7ff0_0000_0000_0000 <= one <= 0x7ff0_0000_0000_0000
            &&& -0x7ff0_0000_0000_0000 <= other <= 0x7ff0_0000_0000_0000
            &&& one > other
        }),
{
    crate::rounding::lemma_magnitude_ordered(cost.pattern(), max_cost.pattern());
}

} // verus!
