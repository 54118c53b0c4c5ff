//! What a query costs, and whether that is too much.

use crate::amount::{Amount, NOT_A_NUMBER};
use crate::rounding::{nearest_pattern, parts, INFINITY};
use vstd::prelude::*;

verus! {

/// Number of bytes in one tebibyte (1024^4), the unit that on-demand queries
/// are billed in.
pub const BYTES_PER_TIB: u64 = 1_099_511_627_776;

/// The pattern of `count`, as a binary64 number.
pub open spec fn whole(count: int) -> int {
    crate::rounding::nearest(count * crate::rounding::pow2(1074), 1)
}

/// The pattern of the tebibytes that `bytes` are: `bytes`, as a binary64
/// number, divided by the bytes in a tebibyte.
pub open spec fn tebibytes(bytes: int) -> int {
    crate::rounding::nearest(crate::rounding::magnitude(whole(bytes)), BYTES_PER_TIB as int)
}

/// `cost` is the price of one tebibyte times the tebibytes that `bytes` are,
/// rounded as binary64 numbers are. Where the price is not a number the cost is
/// not one, nor is it where nothing is scanned at an infinite price.
pub open spec fn is_cost(bytes: int, price: Amount, cost: Amount) -> bool {
    if price.is_nan() || (price.is_infinite() && bytes == 0) {
        cost.is_nan()
    } else if price.is_infinite() {
        cost == price
    } else {
        &&& cost.is_negative() == price.is_negative()
        &&& cost.pattern() == crate::rounding::nearest(
            crate::rounding::magnitude(tebibytes(bytes)) * crate::rounding::magnitude(
                price.pattern(),
            ),
            crate::rounding::pow2(1074),
        )
    }
}

/// `cost` is a number, `max_cost` is one, and `cost` is greater.
pub open spec fn exceeds(cost: Amount, max_cost: Amount) -> bool {
    !cost.is_nan() && !max_cost.is_nan() && cost.units() > max_cost.units()
}

/// The tebibytes that `bytes` are.
fn bytes_in_tebibytes(bytes: u64) -> (pattern: u64)
    ensures
        pattern == tebibytes(bytes as int),
        pattern <= INFINITY,
{
    let count: u64 = nearest_pattern(bytes as u128, 1074);
    let (significand, exponent) = parts(count);
    let shifted: i64 = exponent as i64 - 40;
    let pattern: u64 = nearest_pattern(significand as u128, shifted);
    proof {
        vstd::arithmetic::power2::lemma2_to64_rest();
        crate::rounding::lemma_rounds_to_shifted(
            significand as int,
            shifted as int,
            40,
            pattern as int,
        );
    }
    pattern
}

/// Converts the number of bytes a query would process into an estimated cost,
/// using the configured price per tebibyte.
pub fn calculate_cost(bytes_processed: u64, price_per_tib: Amount) -> (cost: Amount)
    ensures
        is_cost(bytes_processed as int, price_per_tib, cost),
{
    let (negative, price) = price_per_tib.split();
    if price > INFINITY || (price == INFINITY && bytes_processed == 0) {
        return Amount { bits: NOT_A_NUMBER };
    }
    if price == INFINITY {
        return price_per_tib;
    }
    let scanned: u64 = bytes_in_tebibytes(bytes_processed);
    let (scanned_significand, scanned_exponent) = parts(scanned);
    let (price_significand, price_exponent) = parts(price);
    proof {
        crate::rounding::lemma_significand_product(
            scanned_significand as int,
            price_significand as int,
        );
    }
    let significand: u128 = scanned_significand as u128 * price_significand as u128;
    let exponent: i64 = scanned_exponent as i64 + price_exponent as i64 - 1074;
    let pattern: u64 = nearest_pattern(significand, exponent);
    proof {
        crate::rounding::lemma_rounds_to_shifted(
            significand as int,
            exponent as int,
            1074,
            pattern as int,
        );
        crate::rounding::lemma_magnitude_product(scanned as int, price as int);
    }
    Amount::join(negative, pattern)
}

/// Returns `true` when `cost` strictly exceeds the configured budget. A query
/// costing exactly the limit is allowed through.
pub fn exceeds_budget(cost: Amount, max_cost: Amount) -> (too_expensive: bool)
    ensures
        too_expensive == exceeds(cost, max_cost),
{
    let (cost_negative, cost_pattern) = cost.split();
    let (max_negative, max_pattern) = max_cost.split();
    proof {
        crate::rounding::lemma_magnitude_ordered(cost_pattern as int, max_pattern as int);
    }
    if cost_pattern > INFINITY || max_pattern > INFINITY {
        false
    } else if cost_negative {
        max_negative && cost_pattern < max_pattern
    } else if max_negative {
        cost_pattern > 0 || max_pattern > 0
    } else {
        cost_pattern > max_pattern
    }
}

} // verus!
