//! Writing amounts with two digits behind the point.

use crate::amount::Amount;
use crate::positional::Natural;
use crate::rounding::{parts, INFINITY};
use vstd::prelude::*;

verus! {

/// The whole number nearest to `num / den`, even where `num / den` lies halfway
/// between two.
pub open spec fn nearest_whole(num: int, den: int) -> int {
    if crate::rounding::rounds_up(num / den, num % den, den) {
        num / den + 1
    } else {
        num / den
    }
}

/// A finite amount without its sign, in cents.
pub open spec fn cents(amount: Amount) -> int {
    nearest_whole(
        crate::rounding::magnitude(amount.pattern()) * 100,
        crate::rounding::pow2(1074),
    )
}

/// An amount with two digits behind the point.
pub open spec fn two_decimals(amount: Amount) -> Seq<char> {
    if amount.is_nan() {
        "NaN"@
    } else {
        let sign = if amount.is_negative() {
            "-"@
        } else {
            Seq::empty()
        };
        if amount.is_infinite() {
            sign + "inf"@
        } else {
            sign + crate::text::decimal_text(cents(amount) / 100) + "."@ + seq![
                crate::text::digit_char(cents(amount) / 10 % 10),
                crate::text::digit_char(cents(amount) % 10),
            ]
        }
    }
}

/// A digit as a text.
fn digit_text(digit: u64) -> (text: &'static str)
    requires
        digit < 10,
    ensures
        text@ == seq![crate::text::digit_char(digit as int)],
{
    proof {
        reveal_strlit("0");
        reveal_strlit("1");
        reveal_strlit("2");
        reveal_strlit("3");
        reveal_strlit("4");
        reveal_strlit("5");
        reveal_strlit("6");
        reveal_strlit("7");
        reveal_strlit("8");
        reveal_strlit("9");
    }
    if digit == 0 {
        "0"
    } else if digit == 1 {
        "1"
    } else if digit == 2 {
        "2"
    } else if digit == 3 {
        "3"
    } else if digit == 4 {
        "4"
    } else if digit == 5 {
        "5"
    } else if digit == 6 {
        "6"
    } else if digit == 7 {
        "7"
    } else if digit == 8 {
        "8"
    } else {
        "9"
    }
}

/// The cents of a finite amount, in base ten.
fn count_cents(pattern: u64) -> (count: Natural)
    requires
        pattern < INFINITY,
    ensures
        count.wf(),
        count.base() == 10,
        count.number() == nearest_whole(
            crate::rounding::magnitude(pattern as int) * 100,
            crate::rounding::pow2(1074),
        ),
{
    let (significand, exponent) = parts(pattern);
    let hundredfold: u64 = significand * 100;
    if exponent >= 1074 {
        let mut count = Natural::new(10, hundredfold);
        count.multiply_repeatedly(2, (exponent - 1074) as u128);
        proof {
            lemma_whole_cents(significand as int, exponent as int);
        }
        count
    } else {
        let shift: u64 = 1074 - exponent;
        if shift >= 64 {
            proof {
                lemma_no_cents(significand as int, exponent as int);
            }
            return Natural::new(10, 0);
        }
        let mut divisor: u128 = 1;
        let mut i: u64 = 0;
        proof {
            vstd::arithmetic::power2::lemma2_to64();
            vstd::arithmetic::power2::lemma_pow2_strictly_increases(shift as nat, 64);
        }
        while i < shift
            invariant
                i <= shift < 64,
                divisor == crate::rounding::pow2(i as int),
                crate::rounding::pow2(shift as int) < 0x1_0000_0000_0000_0000,
            decreases shift - i,
        {
            proof {
                vstd::arithmetic::power2::lemma_pow2_unfold((i + 1) as nat);
                if i + 1 < shift {
                    vstd::arithmetic::power2::lemma_pow2_strictly_increases(
                        (i + 1) as nat,
                        shift as nat,
                    );
                }
            }
            divisor = divisor * 2;
            i = i + 1;
        }
        proof {
            vstd::arithmetic::power2::lemma_pow2_pos(shift as nat);
            lemma_cut_cents(significand as int, exponent as int);
        }
        let quotient: u64 = (hundredfold as u128 / divisor) as u64;
        let rest: u128 = hundredfold as u128 % divisor;
        if 2 * rest > divisor || (2 * rest == divisor && quotient % 2 == 1) {
            Natural::new(10, quotient + 1)
        } else {
            Natural::new(10, quotient)
        }
    }
}

/// A multiple of a whole number of dollars is a whole number of cents.
proof fn lemma_whole_cents(significand: int, exponent: int)
    requires
        0 <= significand,
        1074 <= exponent,
    ensures
        nearest_whole(
            (significand * crate::rounding::pow2(exponent)) * 100,
            crate::rounding::pow2(1074),
        ) == (significand * 100) * crate::positional::power(2, exponent - 1074),
{
    let unit = crate::rounding::pow2(1074);
    let p = crate::rounding::pow2(exponent - 1074);
    let num = (significand * crate::rounding::pow2(exponent)) * 100;
    let count = (significand * 100) * p;
    vstd::arithmetic::power2::lemma_pow2_pos(1074);
    vstd::arithmetic::power2::lemma_pow2_adds((exponent - 1074) as nat, 1074);
    crate::positional::lemma_power_positive(2, exponent - 1074);
    assert(num == count * unit) by (nonlinear_arith)
        requires
            num == (significand * (p * unit)) * 100,
            count == (significand * 100) * p,
    ;
    vstd::arithmetic::div_mod::lemma_fundamental_div_mod_converse(num, unit, count, 0);
}

/// What is below 2^-64 times a significand is no cent.
proof fn lemma_no_cents(significand: int, exponent: int)
    requires
        0 <= significand < 2 * crate::rounding::FRACTIONS,
        0 <= exponent <= 1010,
    ensures
        nearest_whole(
            (significand * crate::rounding::pow2(exponent)) * 100,
            crate::rounding::pow2(1074),
        ) == 0,
{
    let unit = crate::rounding::pow2(1074);
    let p = crate::rounding::pow2(exponent);
    let q = crate::rounding::pow2(1010);
    let num = (significand * p) * 100;
    vstd::arithmetic::power2::lemma2_to64();
    vstd::arithmetic::power2::lemma_pow2_adds(64, 1010);
    vstd::arithmetic::power2::lemma_pow2_pos(exponent as nat);
    if exponent < 1010 {
        vstd::arithmetic::power2::lemma_pow2_strictly_increases(exponent as nat, 1010);
    }
    assert(0 <= num && 2 * num < unit) by (nonlinear_arith)
        requires
            num == (significand * p) * 100,
            0 <= significand < 0x0020_0000_0000_0000,
            0 < p <= q,
            unit == 0x1_0000_0000_0000_0000 * q,
    ;
    vstd::arithmetic::div_mod::lemma_fundamental_div_mod_converse(num, unit, 0, num);
}

/// The common power of two is cut from both sides of the quotient.
proof fn lemma_cut_cents(significand: int, exponent: int)
    requires
        0 <= significand,
        0 <= exponent < 1074,
    ensures
        nearest_whole(
            (significand * crate::rounding::pow2(exponent)) * 100,
            crate::rounding::pow2(1074),
        ) == nearest_whole(significand * 100, crate::rounding::pow2(1074 - exponent)),
        nearest_whole(significand * 100, crate::rounding::pow2(1074 - exponent)) >= 0,
{
    let unit = crate::rounding::pow2(1074);
    let p = crate::rounding::pow2(exponent);
    let d = crate::rounding::pow2(1074 - exponent);
    let n = significand * 100;
    let num = (significand * p) * 100;
    vstd::arithmetic::power2::lemma_pow2_adds((1074 - exponent) as nat, exponent as nat);
    vstd::arithmetic::power2::lemma_pow2_pos(exponent as nat);
    vstd::arithmetic::power2::lemma_pow2_pos((1074 - exponent) as nat);
    vstd::arithmetic::div_mod::lemma_fundamental_div_mod(n, d);
    let q = n / d;
    let r = n % d;
    assert(num == q * unit + r * p) by (nonlinear_arith)
        requires
            num == (significand * p) * 100,
            significand * 100 == d * q + r,
            unit == d * p,
    ;
    assert(0 <= r * p < unit) by (nonlinear_arith)
        requires
            0 <= r < d,
            0 < p,
            unit == d * p,
    ;
    vstd::arithmetic::div_mod::lemma_fundamental_div_mod_converse(num, unit, q, r * p);
    assert(2 * (r * p) > d * p <==> 2 * r > d) by (nonlinear_arith)
        requires
            0 < p,
    ;
    assert(2 * (r * p) == d * p <==> 2 * r == d) by (nonlinear_arith)
        requires
            0 < p,
    ;
    assert(q >= 0) by (nonlinear_arith)
        requires
            d * q + r >= 0,
            r < d,
            d > 0,
    ;
}

/// The two lowest digits, and what stands above them.
proof fn lemma_low_digits(digits: Seq<u64>)
    requires
        crate::positional::are_digits(digits, 10),
    ensures
        crate::positional::digit_at(digits, 0) == crate::positional::value(digits, 10) % 10,
        crate::positional::digit_at(digits, 1) == crate::positional::value(digits, 10) / 10 % 10,
        digits.len() > 2 ==> crate::positional::value(digits.skip(2), 10)
            == crate::positional::value(digits, 10) / 100,
        digits.len() <= 2 ==> crate::positional::value(digits, 10) / 100 == 0,
{
    if digits.len() > 0 {
        let rest = digits.drop_first();
        assert(digits[0] < 10);
        if rest.len() > 0 {
            assert(rest[0] == digits[1]);
            assert(digits[1] < 10);
            assert(rest.drop_first() =~= digits.skip(2));
            let above = crate::positional::value(digits.skip(2), 10);
            assert(crate::positional::value(rest, 10) == digits[1] + 10 * above);
            assert(crate::positional::value(digits, 10) == digits[0] + 10 * digits[1] + 100
                * above);
            if digits.len() == 2 {
                assert(crate::positional::value(digits.skip(2), 10) == 0);
            }
        } else {
            assert(crate::positional::value(rest, 10) == 0);
        }
    }
}

/// A whole number grows by one digit.
proof fn lemma_decimal_text_push(number: int, digit: int)
    requires
        0 <= number,
        0 <= digit < 10,
    ensures
        0 < number ==> crate::text::decimal_text(10 * number + digit)
            == crate::text::decimal_text(number).push(
            crate::text::digit_char(digit),
        ),
        number == 0 ==> crate::text::decimal_text(10 * number + digit)
            == seq![crate::text::digit_char(digit)],
{
}

/// An amount with two digits behind the point.
pub fn format_two_decimals(amount: Amount) -> (text: String)
    ensures
        text@ == two_decimals(amount),
{
    let (negative, pattern) = amount.split();
    if pattern > INFINITY {
        return "NaN".to_string();
    }
    let mut text: String = String::new();
    if negative {
        text.append("-");
    }
    let ghost sign = text@;
    assert(sign =~= (if amount.is_negative() {
        "-"@
    } else {
        Seq::empty()
    }));
    if pattern == INFINITY {
        text.append("inf");
        return text;
    }
    let count = count_cents(pattern);
    let ghost digits = count.digits();
    let mut i: usize = count.len();
    let mut started: bool = false;
    let ghost mut above: int = 0;
    proof {
        lemma_low_digits(digits);
        assert(digits.skip(digits.len() as int) =~= Seq::empty());
    }
    while i > 2
        invariant
            count.wf(),
            count.base() == 10,
            digits == count.digits(),
            i <= digits.len(),
            i < 2 ==> i == digits.len(),
            above == crate::positional::value(digits.skip(i as int), 10),
            above >= 0,
            started == (above > 0),
            text@ == sign + (if above > 0 {
                crate::text::decimal_text(above)
            } else {
                Seq::empty()
            }),
        decreases i,
    {
        i = i - 1;
        let digit: u64 = count.digit(i);
        proof {
            assert(digits.skip(i as int).drop_first() =~= digits.skip(i + 1));
            assert(digits.skip(i as int)[0] == digits[i as int]);
            lemma_decimal_text_push(above, digit as int);
            above = 10 * above + digit;
        }
        if started || digit > 0 {
            text.append(digit_text(digit));
            started = true;
        }
    }
    if !started {
        text.append("0");
    }
    proof {
        reveal_strlit("0");
        if digits.len() > 2 {
            assert(above == cents(amount) / 100);
        } else {
            assert(digits.skip(i as int) =~= Seq::empty());
            assert(above == 0);
        }
        assert(text@ =~= sign + crate::text::decimal_text(cents(amount) / 100));
    }
    text.append(".");
    let tens: u64 = if count.len() > 1 {
        count.digit(1)
    } else {
        0
    };
    let ones: u64 = if count.len() > 0 {
        count.digit(0)
    } else {
        0
    };
    text.append(digit_text(tens));
    text.append(digit_text(ones));
    assert(text@ =~= two_decimals(amount));
    text
}

/// What is written is at most half a cent off.
pub proof fn law_at_most_half_a_cent_is_lost(amount: Amount)
    requires
        amount.is_finite(),
    ensures
        -crate::rounding::pow2(1074) <= 2 * (cents(amount) * crate::rounding::pow2(1074)
            - crate::rounding::magnitude(amount.pattern()) * 100) <= crate::rounding::pow2(1074),
{
    let unit = crate::rounding::pow2(1074);
    let num = crate::rounding::magnitude(amount.pattern()) * 100;
    vstd::arithmetic::power2::lemma_pow2_pos(1074);
    vstd::arithmetic::div_mod::lemma_fundamental_div_mod(num, unit);
    let q = num / unit;
    assert((q + 1) * unit == unit * q + unit && q * unit == unit * q) by (nonlinear_arith);
}

/// A finite amount is written as its sign where it is negative, the dollars
/// without leading zeros, a point, and two digits. The digits stand for a whole
/// number of cents, none is closer to the amount, and where another is as close
/// the one that is written is even.
pub proof fn law_an_amount_is_written_to_the_cent(amount: Amount, text: String)
    requires
        amount.is_finite(),
        call_ensures(format_two_decimals, (amount,), text),
    ensures
        ({
            let start: int = if amount.is_negative() {
                1
            } else {
                0
            };
            let point = text@.len() - 3;
            let digits = text@.subrange(start, point) + text@.skip(point + 1);
            let off = 2 * crate::rounding::distance(
                crate::rounding::magnitude(amount.pattern()) * 100,
                crate::text::digits_value(digits) * crate::rounding::pow2(1074),
            );
            &&& start < point
            &&& amount.is_negative() ==> text@[0] == '-'
            &&& text@[point] == '.'
            &&& crate::text::all_digits(digits)
            &&& text@[start] == '0' ==> point == start + 1
            &&& off <= crate::rounding::pow2(1074)
            &&& off == crate::rounding::pow2(1074) ==> crate::text::digits_value(digits) % 2 == 0
        }),
{
    let start: int = if amount.is_negative() {
        1
    } else {
        0
    };
    let point = text@.len() - 3;
    let digits = text@.subrange(start, point) + text@.skip(point + 1);
    let count = cents(amount);
    let low = seq![
        crate::text::digit_char(count / 10 % 10),
        crate::text::digit_char(count % 10),
    ];
    let high = crate::text::decimal_text(count / 100);
    reveal_strlit("-");
    reveal_strlit(".");
    lemma_cents(amount);
    crate::text::law_a_number_is_written_without_leading_zeros(count / 100);
    assert(text@.subrange(start, point) =~= high);
    assert(text@.skip(point + 1) =~= low);
    assert(text@[start] == high[0]);
    assert(low.drop_last() =~= seq![low[0]]);
    crate::text::law_a_digit_stands_for_its_place(low[0]);
    crate::text::law_a_digit_stands_for_its_place(low[1]);
    assert(crate::text::digits_value(low) == count % 100);
    crate::text::law_digits_stand_for_their_places(high, low);
    vstd::arithmetic::power::lemma_pow0(10);
    crate::positional::lemma_power_step(10, 0);
    crate::positional::lemma_power_step(10, 1);
    assert(crate::positional::power(10, low.len() as int) == 100);
    assert(crate::text::digits_value(digits) == (count / 100) * 100 + count % 100);
    assert forall|i: int| 0 <= i < digits.len() implies crate::text::is_digit(
        #[trigger] digits[i],
    ) by {
        if i < high.len() {
            assert(digits[i] == high[i]);
        } else {
            assert(digits[i] == low[i - high.len()]);
        }
    }
}

/// The cents of an amount are the nearest whole number of them.
proof fn lemma_cents(amount: Amount)
    requires
        amount.is_finite(),
    ensures
        0 <= cents(amount),
        ({
            let off = 2 * crate::rounding::distance(
                crate::rounding::magnitude(amount.pattern()) * 100,
                cents(amount) * crate::rounding::pow2(1074),
            );
            &&& off <= crate::rounding::pow2(1074)
            &&& off == crate::rounding::pow2(1074) ==> cents(amount) % 2 == 0
        }),
{
    let unit = crate::rounding::pow2(1074);
    let num = crate::rounding::magnitude(amount.pattern()) * 100;
    vstd::arithmetic::power2::lemma_pow2_pos(1074);
    crate::rounding::lemma_magnitude_nonnegative(amount.pattern());
    vstd::arithmetic::div_mod::lemma_fundamental_div_mod(num, unit);
    let q = num / unit;
    let r = num % unit;
    assert((q + 1) * unit == unit * q + unit && q * unit == unit * q) by (nonlinear_arith);
    assert(q >= 0) by (nonlinear_arith)
        requires
            unit * q + r >= 0,
            r < unit,
            unit > 0,
    ;
}

/// What is infinite or not a number is written as a word.
pub proof fn law_what_is_not_finite_is_written_as_a_word(amount: Amount, text: String)
    requires
        !amount.is_finite(),
        call_ensures(format_two_decimals, (amount,), text),
    ensures
        amount.is_nan() ==> text@ == "NaN"@,
        amount.is_infinite() && !amount.is_negative() ==> text@ == "inf"@,
        amount.is_infinite() && amount.is_negative() ==> text@ == "-inf"@,
{
    reveal_strlit("-");
    reveal_strlit("inf");
    reveal_strlit("-inf");
    if amount.is_infinite() {
        if amount.is_negative() {
            assert(text@ =~= "-inf"@);
        } else {
            assert(text@ =~= "inf"@);
        }
    }
}

} // verus!
