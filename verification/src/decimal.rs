//! Reading amounts that are written in base ten.

use crate::amount::{Amount, NOT_A_NUMBER};
use crate::positional::Natural;
use crate::rounding::{parts, INFINITY};
use crate::text::{characters, digit};
use vstd::prelude::*;

verus! {

/// What a text without its sign says.
pub enum Reading {
    NotANumber,
    Infinity,
    /// The digits, before and after the point, times ten to the exponent.
    Number { digits: Seq<char>, exponent: int },
}

/// `c` is `letter`, or the upper case of that ASCII letter.
pub open spec fn is_letter(c: char, letter: char) -> bool {
    if 'A' <= c <= 'Z' {
        c as int + 32 == letter as int
    } else {
        c == letter
    }
}

/// `text` spells `word`, in upper or lower case.
pub open spec fn spells(text: Seq<char>, word: Seq<char>) -> bool {
    &&& text.len() == word.len()
    &&& forall|i: int| 0 <= i < text.len() ==> is_letter(#[trigger] text[i], word[i])
}

/// How many digits a text starts with.
pub open spec fn leading_digits(text: Seq<char>) -> int
    decreases text.len(),
{
    if text.len() > 0 && crate::text::is_digit(text[0]) {
        1 + leading_digits(text.skip(1))
    } else {
        0
    }
}

/// A text starts with a sign.
pub open spec fn has_sign(text: Seq<char>) -> bool {
    text.len() > 0 && (text[0] == '+' || text[0] == '-')
}

/// A text starts with a minus sign.
pub open spec fn has_minus(text: Seq<char>) -> bool {
    text.len() > 0 && text[0] == '-'
}

/// A text behind its sign, if it has one.
pub open spec fn without_sign(text: Seq<char>) -> Seq<char> {
    if has_sign(text) {
        text.skip(1)
    } else {
        text
    }
}

/// What stands behind the digits of a number: nothing, or `e`, an optional sign
/// and the digits of the exponent, at least one.
pub open spec fn exponent(text: Seq<char>) -> Option<int> {
    if text.len() == 0 {
        Some(0)
    } else if text[0] == 'e' || text[0] == 'E' {
        let digits = without_sign(text.skip(1));
        if digits.len() == 0 || !crate::text::all_digits(digits) {
            None
        } else if has_minus(text.skip(1)) {
            Some(-crate::text::digits_value(digits))
        } else {
            Some(crate::text::digits_value(digits))
        }
    } else {
        None
    }
}

/// A number without a sign: digits, at least one, with a point before, between
/// or behind them or with none, and an optional exponent.
pub open spec fn number(text: Seq<char>) -> Option<Reading> {
    let whole = leading_digits(text);
    let behind = text.skip(whole);
    let has_point = behind.len() > 0 && behind[0] == '.';
    let tail = if has_point {
        behind.skip(1)
    } else {
        behind
    };
    let fraction = if has_point {
        leading_digits(tail)
    } else {
        0
    };
    match exponent(tail.skip(fraction)) {
        Some(e) if whole + fraction > 0 => Some(
            Reading::Number {
                digits: text.take(whole) + tail.take(fraction),
                exponent: e - fraction,
            },
        ),
        _ => None,
    }
}

/// What a text says behind its sign, if it has one.
pub open spec fn reading(text: Seq<char>) -> Option<Reading> {
    let text = without_sign(text);
    if spells(text, seq!['i', 'n', 'f']) || spells(
        text,
        seq!['i', 'n', 'f', 'i', 'n', 'i', 't', 'y'],
    ) {
        Some(Reading::Infinity)
    } else if spells(text, seq!['n', 'a', 'n']) {
        Some(Reading::NotANumber)
    } else {
        number(text)
    }
}

/// The pattern nearest to `digits * 10^exponent`.
pub open spec fn decimal_pattern(digits: int, exponent: int) -> int {
    if exponent >= 0 {
        crate::rounding::nearest(
            (digits * crate::positional::power(10, exponent)) * crate::rounding::pow2(1074),
            1,
        )
    } else {
        crate::rounding::nearest(
            digits * crate::rounding::pow2(1074),
            crate::positional::power(10, -exponent),
        )
    }
}

/// `amount` is the binary64 number that is nearest to what `reading` says.
pub open spec fn is_nearest(reading: Reading, amount: Amount) -> bool {
    match reading {
        Reading::NotANumber => amount.is_nan(),
        Reading::Infinity => amount.is_infinite(),
        Reading::Number { digits, exponent } => amount.pattern() == decimal_pattern(
            crate::text::digits_value(digits),
            exponent,
        ),
    }
}

/// `text` says `amount`: the number nearest to what is written, with its sign.
pub open spec fn says(text: Seq<char>, amount: Amount) -> bool {
    match reading(text) {
        None => false,
        Some(Reading::NotANumber) => amount.is_nan(),
        Some(read) => is_nearest(read, amount) && amount.is_negative() == has_minus(text),
    }
}

/// The base in which numbers are held while they are rounded.
const BASE: u64 = 0x1_0000_0000;

/// `den` times a significand that is scaled by an exponent.
fn scaled(den: &Natural, significand: u64, exponent: u64) -> (product: Natural)
    requires
        den.wf(),
        den.base() == BASE,
    ensures
        product.wf(),
        product.base() == BASE,
        product.number() == den.number() * (significand * crate::rounding::pow2(exponent as int)),
{
    let mut product = den.copy();
    product.multiply_add(significand, 0);
    product.multiply_repeatedly(2, exponent as u128);
    proof {
        let d = den.number();
        let s = significand as int;
        let p = crate::rounding::pow2(exponent as int);
        crate::positional::lemma_power_positive(2, exponent as int);
        assert((d * s + 0) * p == d * (s * p)) by (nonlinear_arith);
    }
    product
}

/// The pattern nearest to `num / den` units.
fn nearest_quotient(num: &Natural, den: &Natural) -> (pattern: u64)
    requires
        num.wf(),
        num.base() == BASE,
        num.number() >= 0,
        den.wf(),
        den.base() == BASE,
        den.number() > 0,
    ensures
        pattern <= INFINITY,
        pattern == crate::rounding::nearest(num.number(), den.number()),
{
    let ghost n = num.number();
    let ghost d = den.number();
    let mut low: u64 = 0;
    let mut high: u64 = INFINITY + 1;
    proof {
        assert(d * crate::rounding::magnitude(0) == 0) by (nonlinear_arith)
            requires
                crate::rounding::magnitude(0) == 0,
        ;
    }
    while high - low > 1
        invariant
            n == num.number(),
            d == den.number(),
            d > 0,
            num.wf(),
            num.base() == BASE,
            den.wf(),
            den.base() == BASE,
            low < high <= INFINITY + 1,
            d * crate::rounding::magnitude(low as int) <= n,
            high <= INFINITY ==> n < d * crate::rounding::magnitude(high as int),
        decreases high - low,
    {
        let middle: u64 = low + (high - low) / 2;
        let (significand, exponent) = parts(middle);
        let product = scaled(den, significand, exponent);
        if product.at_most(num) {
            low = middle;
        } else {
            high = middle;
        }
    }
    if low == INFINITY {
        proof {
            lemma_between(n, d, low as int);
        }
        return INFINITY;
    }
    // The number lies between `low` and the next pattern.
    let (significand, exponent) = parts(low);
    let halfway = scaled(den, 2 * significand + 1, exponent);
    let mut twice = num.copy();
    twice.multiply_add(2, 0);
    proof {
        crate::rounding::lemma_parts(low as int);
        crate::rounding::lemma_magnitude_step(low as int);
        let s = significand as int;
        let p = crate::rounding::pow2(exponent as int);
        assert((2 * s + 1) * p == s * p + (s * p + p)) by (nonlinear_arith);
        lemma_between(n, d, low as int);
    }
    if !halfway.at_most(&twice) {
        low
    } else if !twice.at_most(&halfway) {
        low + 1
    } else if low % 2 == 0 {
        low
    } else {
        low + 1
    }
}

/// Which of two neighbours a number between them rounds to.
proof fn lemma_between(num: int, den: int, low: int)
    requires
        den > 0,
        0 <= low <= INFINITY,
        den * crate::rounding::magnitude(low) <= num,
        low < INFINITY ==> num < den * crate::rounding::magnitude(low + 1),
    ensures
        low == INFINITY ==> crate::rounding::nearest(num, den) == low,
        low < INFINITY ==> {
            let halfway = den * (crate::rounding::magnitude(low) + crate::rounding::magnitude(
                low + 1,
            ));
            crate::rounding::nearest(num, den) == if 2 * num < halfway || (2 * num == halfway
                && low % 2 == 0) {
                low
            } else {
                low + 1
            }
        },
{
    let here = crate::rounding::magnitude(low);
    if low > 0 {
        crate::rounding::lemma_magnitude_step(low - 1);
        let before = crate::rounding::magnitude(low - 1);
        assert(den * (before + here) < 2 * (den * here)) by (nonlinear_arith)
            requires
                den > 0,
                before < here,
        ;
    }
    if low == INFINITY {
        crate::rounding::lemma_nearest_is(num, den, low);
    } else {
        let next = crate::rounding::magnitude(low + 1);
        let halfway = den * (here + next);
        if 2 * num < halfway || (2 * num == halfway && low % 2 == 0) {
            crate::rounding::lemma_nearest_is(num, den, low);
        } else {
            crate::rounding::lemma_magnitude_step(low + 1);
            let after = crate::rounding::magnitude(low + 2);
            assert(2 * (den * next) < den * (next + after)) by (nonlinear_arith)
                requires
                    den > 0,
                    next < after,
            ;
            crate::rounding::lemma_nearest_is(num, den, low + 1);
        }
    }
}

/// A power of ten is at least the power of two with three times the exponent.
proof fn lemma_power_of_ten(exponent: int)
    requires
        0 <= exponent,
    ensures
        crate::positional::power(10, exponent) >= crate::rounding::pow2(3 * exponent) > 0,
    decreases exponent,
{
    if exponent == 0 {
        vstd::arithmetic::power::lemma_pow0(10);
        vstd::arithmetic::power2::lemma2_to64();
    } else {
        lemma_power_of_ten(exponent - 1);
        crate::positional::lemma_power_step(10, exponent - 1);
        vstd::arithmetic::power2::lemma_pow2_adds((3 * (exponent - 1)) as nat, 3);
        vstd::arithmetic::power2::lemma2_to64();
        assert(3 * (exponent - 1) + 3 == 3 * exponent);
    }
}

/// Digits stand for less than the next place does.
proof fn lemma_digits_value_bound(text: Seq<char>)
    requires
        crate::text::all_digits(text),
    ensures
        0 <= crate::text::digits_value(text) < crate::positional::power(10, text.len() as int),
    decreases text.len(),
{
    if text.len() == 0 {
        vstd::arithmetic::power::lemma_pow0(10);
    } else {
        lemma_digits_value_bound(text.drop_last());
        crate::positional::lemma_power_step(10, text.len() - 1);
        assert(crate::text::is_digit(text[text.len() - 1]));
    }
}

/// Nothing times a power of ten is nothing.
proof fn lemma_decimal_zero(exponent: int)
    ensures
        decimal_pattern(0, exponent) == 0,
{
    let unit = crate::rounding::pow2(1074);
    if exponent >= 0 {
        let p = crate::positional::power(10, exponent);
        assert((0 * p) * unit == 0) by (nonlinear_arith);
        crate::rounding::lemma_nearest_zero(0, 1);
    } else {
        crate::positional::lemma_power_positive(10, -exponent);
        assert(0 * unit == 0) by (nonlinear_arith);
        crate::rounding::lemma_nearest_zero(0, crate::positional::power(10, -exponent));
    }
}

/// What digits and an exponent are rounded to is a number.
pub proof fn lemma_decimal_pattern_is_one(digits: Seq<char>, exponent: int)
    requires
        crate::text::all_digits(digits),
    ensures
        0 <= decimal_pattern(crate::text::digits_value(digits), exponent) <= INFINITY,
{
    let unit = crate::rounding::pow2(1074);
    let d = crate::text::digits_value(digits);
    let e = if exponent >= 0 {
        exponent
    } else {
        -exponent
    };
    let p = crate::positional::power(10, e);
    vstd::arithmetic::power2::lemma_pow2_pos(1074);
    crate::positional::lemma_power_positive(10, e);
    crate::text::lemma_digits_value_nonnegative(digits);
    assert(0 <= d * unit && 0 <= d * p && 0 <= (d * p) * unit) by (nonlinear_arith)
        requires
            0 <= d,
            0 < p,
            0 < unit,
    ;
    if exponent >= 0 {
        crate::rounding::lemma_rounds_to_exists((d * p) * unit, 1);
    } else {
        crate::rounding::lemma_rounds_to_exists(d * unit, p);
    }
}

/// 10^400 is past every finite number.
proof fn lemma_decimal_huge(digits: int, exponent: int)
    requires
        1 <= digits,
        400 <= exponent,
    ensures
        decimal_pattern(digits, exponent) == INFINITY,
{
    let unit = crate::rounding::pow2(1074);
    let p = crate::positional::power(10, exponent);
    let f = crate::rounding::FRACTIONS as int;
    lemma_power_of_ten(exponent);
    vstd::arithmetic::power2::lemma_pow2_pos(1074);
    vstd::arithmetic::power2::lemma2_to64_rest();
    vstd::arithmetic::power2::lemma_pow2_adds(52, 2046);
    vstd::arithmetic::power2::lemma_pow2_adds(1024, 1074);
    vstd::arithmetic::power2::lemma_pow2_strictly_increases(1024, (3 * exponent) as nat);
    crate::rounding::lemma_magnitude_of_parts(2046, f);
    assert(2046 * f + f == INFINITY);
    let q = crate::rounding::pow2(1024);
    vstd::arithmetic::power2::lemma_pow2_pos(1024);
    assert((digits * p) * unit >= q * unit) by (nonlinear_arith)
        requires
            digits >= 1,
            p >= q,
            q > 0,
            unit > 0,
    ;
    crate::rounding::lemma_nearest_at_least((digits * p) * unit, 1, INFINITY as int);
}

/// 10^-360 is less than half of the smallest positive number.
proof fn lemma_decimal_tiny(digits: int, places: int, exponent: int)
    requires
        0 <= places,
        0 <= digits < crate::positional::power(10, places),
        exponent + places <= -360,
    ensures
        decimal_pattern(digits, exponent) == 0,
{
    let unit = crate::rounding::pow2(1074);
    let d = crate::positional::power(10, places);
    let gap = -exponent - places;
    let g = crate::positional::power(10, gap);
    let den = crate::positional::power(10, -exponent);
    vstd::arithmetic::power2::lemma_pow2_pos(1074);
    vstd::arithmetic::power2::lemma_pow2_unfold(1075);
    vstd::arithmetic::power2::lemma_pow2_strictly_increases(1075, (3 * gap) as nat);
    lemma_power_of_ten(gap);
    vstd::arithmetic::power::lemma_pow_adds(10, places as nat, gap as nat);
    assert(places + gap == -exponent);
    assert(den == d * g);
    assert(2 * (digits * unit) < den && den > 0) by (nonlinear_arith)
        requires
            0 <= digits < d,
            den == d * g,
            g > 2 * unit,
            unit > 0,
    ;
    assert(den * (crate::rounding::magnitude(0) + crate::rounding::magnitude(1)) == den)
        by (nonlinear_arith)
        requires
            crate::rounding::magnitude(0) + crate::rounding::magnitude(1) == 1,
    ;
    crate::rounding::lemma_nearest_is(digits * unit, den, 0);
}

/// The number that a row of digits stands for.
fn digits_number(digits: &Vec<char>) -> (number: Natural)
    requires
        crate::text::all_digits(digits@),
    ensures
        number.wf(),
        number.base() == BASE,
        number.number() == crate::text::digits_value(digits@),
{
    let mut number = Natural::new(BASE, 0);
    let mut i: usize = 0;
    while i < digits.len()
        invariant
            i <= digits@.len(),
            crate::text::all_digits(digits@),
            number.wf(),
            number.base() == BASE,
            number.number() == crate::text::digits_value(digits@.take(i as int)),
        decreases digits@.len() - i,
    {
        let c: char = digits[i];
        assert(crate::text::is_digit(digits@[i as int]));
        number.multiply_add(10, c as u64 - '0' as u64);
        assert(digits@.take(i + 1).drop_last() =~= digits@.take(i as int));
        i = i + 1;
    }
    assert(digits@.take(i as int) =~= digits@);
    number
}

/// Exponents from here on, up or down, are not told apart.
const EXPONENT_LIMIT: i128 = 0x10_0000_0000_0000_0000_0000_0000;

/// The pattern nearest to the digits times `10^exponent`.
fn round_decimal(digits: &Vec<char>, exponent: i128) -> (pattern: u64)
    requires
        crate::text::all_digits(digits@),
        -40 * EXPONENT_LIMIT <= exponent <= 40 * EXPONENT_LIMIT,
    ensures
        pattern <= INFINITY,
        pattern == decimal_pattern(crate::text::digits_value(digits@), exponent as int),
{
    let ghost d = crate::text::digits_value(digits@);
    let mut number = digits_number(digits);
    let none = Natural::new(BASE, 0);
    proof {
        lemma_digits_value_bound(digits@);
    }
    if number.at_most(&none) {
        proof {
            lemma_decimal_zero(exponent as int);
        }
        return 0;
    }
    if exponent >= 400 {
        proof {
            lemma_decimal_huge(d, exponent as int);
        }
        return INFINITY;
    }
    if exponent + digits.len() as i128 <= -360 {
        proof {
            lemma_decimal_tiny(d, digits@.len() as int, exponent as int);
        }
        return 0;
    }
    let mut den = Natural::new(BASE, 1);
    if exponent >= 0 {
        number.multiply_repeatedly(10, exponent as u128);
    } else {
        den.multiply_repeatedly(10, (-exponent) as u128);
    }
    number.multiply_repeatedly(2, 1074);
    proof {
        let unit = crate::rounding::pow2(1074);
        let e: int = if exponent >= 0 {
            exponent as int
        } else {
            -exponent as int
        };
        let p = crate::positional::power(10, e);
        vstd::arithmetic::power2::lemma_pow2_pos(1074);
        crate::positional::lemma_power_positive(2, 1074);
        crate::positional::lemma_power_positive(10, e);
        assert(1 * p == p);
        assert(0 <= d * p && 0 <= d * unit) by (nonlinear_arith)
            requires
                0 <= d,
                0 < p,
                0 < unit,
        ;
        assert(0 <= (d * p) * unit) by (nonlinear_arith)
            requires
                0 <= d * p,
                0 < unit,
        ;
    }
    nearest_quotient(&number, &den)
}

/// A text starts with the digits that were counted.
pub proof fn lemma_leading_digits(text: Seq<char>)
    ensures
        0 <= leading_digits(text) <= text.len(),
        crate::text::all_digits(text.take(leading_digits(text))),
    decreases text.len(),
{
    if text.len() > 0 && crate::text::is_digit(text[0]) {
        let rest = text.skip(1);
        lemma_leading_digits(rest);
        let n = leading_digits(text);
        assert forall|i: int| 0 <= i < n implies crate::text::is_digit(
            #[trigger] text.take(n)[i],
        ) by {
            if i > 0 {
                assert(text.take(n)[i] == rest.take(n - 1)[i - 1]);
            }
        }
    }
}

/// Where the digits end that start at `from`.
fn skip_digits(text: &Vec<char>, from: usize) -> (end: usize)
    requires
        from <= text@.len(),
    ensures
        from <= end <= text@.len(),
        end == from + leading_digits(text@.skip(from as int)),
{
    let mut i: usize = from;
    while i < text.len() && digit(text[i])
        invariant
            from <= i <= text@.len(),
            leading_digits(text@.skip(from as int)) == i - from + leading_digits(
                text@.skip(i as int),
            ),
        decreases text@.len() - i,
    {
        assert(text@.skip(i as int)[0] == text@[i as int]);
        assert(text@.skip(i as int).skip(1) =~= text@.skip(i + 1));
        i = i + 1;
    }
    proof {
        if i < text.len() {
            assert(text@.skip(i as int)[0] == text@[i as int]);
        }
    }
    i
}

/// Whether `text` spells `word` from `from` on.
fn is_word(text: &Vec<char>, from: usize, word: &Vec<char>) -> (is_word: bool)
    requires
        from <= text@.len(),
    ensures
        is_word == spells(text@.skip(from as int), word@),
{
    let ghost rest = text@.skip(from as int);
    if text.len() - from != word.len() {
        return false;
    }
    let mut i: usize = 0;
    while i < word.len()
        invariant
            i <= word@.len() == rest.len(),
            from + rest.len() == text@.len() <= usize::MAX,
            rest == text@.skip(from as int),
            forall|j: int| 0 <= j < i ==> is_letter(#[trigger] rest[j], word@[j]),
        decreases word@.len() - i,
    {
        let c: char = text[from + i];
        let w: char = word[i];
        assert(rest[i as int] == c);
        let same: bool = if 'A' <= c && c <= 'Z' {
            (c as u8 + 32) as char == w
        } else {
            c == w
        };
        if !same {
            return false;
        }
        i = i + 1;
    }
    true
}

/// Appends the characters between `from` and `to`.
fn append_range(row: &mut Vec<char>, text: &Vec<char>, from: usize, to: usize)
    requires
        from <= to <= text@.len(),
    ensures
        final(row)@ == old(row)@ + text@.subrange(from as int, to as int),
{
    let mut i: usize = from;
    while i < to
        invariant
            from <= i <= to <= text@.len(),
            row@ == old(row)@ + text@.subrange(from as int, i as int),
        decreases to - i,
    {
        row.push(text[i]);
        i = i + 1;
        assert(row@ =~= old(row)@ + text@.subrange(from as int, i as int));
    }
}

/// The exponent that starts at `from`, told apart up to the limit.
fn read_exponent(text: &Vec<char>, from: usize) -> (read: Option<i128>)
    requires
        from <= text@.len(),
    ensures
        match exponent(text@.skip(from as int)) {
            None => read is None,
            Some(e) => read matches Some(r) && {
                ||| r == e
                ||| EXPONENT_LIMIT <= r <= e
                ||| e <= r <= -EXPONENT_LIMIT
            },
        },
        read matches Some(r) ==> -10 * EXPONENT_LIMIT < r < 10 * EXPONENT_LIMIT,
{
    let ghost tail = text@.skip(from as int);
    if from == text.len() {
        return Some(0);
    }
    assert(tail[0] == text@[from as int]);
    if text[from] != 'e' && text[from] != 'E' {
        return None;
    }
    let mut start: usize = from + 1;
    let mut negative: bool = false;
    assert(tail.skip(1) =~= text@.skip(from + 1));
    if start < text.len() {
        assert(tail.skip(1)[0] == text@[start as int]);
        if text[start] == '+' || text[start] == '-' {
            negative = text[start] == '-';
            start = start + 1;
            assert(tail.skip(1).skip(1) =~= text@.skip(from + 2));
        }
    }
    let ghost digits = text@.skip(start as int);
    assert(digits == without_sign(tail.skip(1)));
    assert(negative == has_minus(tail.skip(1)));
    if start == text.len() {
        return None;
    }
    let mut size: i128 = 0;
    let mut i: usize = start;
    while i < text.len()
        invariant
            start <= i <= text@.len(),
            digits == text@.skip(start as int),
            forall|j: int| 0 <= j < i - start ==> crate::text::is_digit(#[trigger] digits[j]),
            0 <= size < 10 * EXPONENT_LIMIT,
            size == crate::text::digits_value(digits.take(i - start)) || EXPONENT_LIMIT <= size
                <= crate::text::digits_value(digits.take(i - start)),
            !crate::text::all_digits(digits) ==> exponent(text@.skip(from as int)) is None,
        decreases text@.len() - i,
    {
        let c: char = text[i];
        assert(digits[i - start] == c);
        if !digit(c) {
            return None;
        }
        proof {
            let k = i - start;
            assert(digits.take(k + 1).drop_last() =~= digits.take(k));
        }
        if size < EXPONENT_LIMIT {
            size = size * 10 + (c as i128 - '0' as i128);
        }
        i = i + 1;
    }
    assert(digits.take(i - start) =~= digits);
    if negative {
        Some(-size)
    } else {
        Some(size)
    }
}

/// Exponents past the limit all give infinity, and those below it all give
/// zero.
proof fn lemma_exponent_limit(digits: Seq<char>, fraction: int, exponent: int, read: int)
    requires
        crate::text::all_digits(digits),
        0 <= fraction <= digits.len() <= usize::MAX,
        read == exponent || EXPONENT_LIMIT <= read <= exponent || exponent <= read
            <= -EXPONENT_LIMIT,
    ensures
        decimal_pattern(crate::text::digits_value(digits), read - fraction) == decimal_pattern(
            crate::text::digits_value(digits),
            exponent - fraction,
        ),
{
    let d = crate::text::digits_value(digits);
    lemma_digits_value_bound(digits);
    if read != exponent {
        if d == 0 {
            lemma_decimal_zero(read - fraction);
            lemma_decimal_zero(exponent - fraction);
        } else if read > 0 {
            lemma_decimal_huge(d, read - fraction);
            lemma_decimal_huge(d, exponent - fraction);
        } else {
            lemma_decimal_tiny(d, digits.len() as int, read - fraction);
            lemma_decimal_tiny(d, digits.len() as int, exponent - fraction);
        }
    }
}

/// The pattern of the number that starts at `from`.
fn read_number(text: &Vec<char>, from: usize) -> (pattern: Option<u64>)
    requires
        from <= text@.len(),
    ensures
        match number(text@.skip(from as int)) {
            Some(Reading::Number { digits, exponent }) => pattern matches Some(p) && p <= INFINITY
                && p == decimal_pattern(crate::text::digits_value(digits), exponent),
            _ => pattern is None,
        },
{
    let ghost rest = text@.skip(from as int);
    let whole_end: usize = skip_digits(text, from);
    let ghost whole = leading_digits(rest);
    let ghost behind = rest.skip(whole);
    assert(behind =~= text@.skip(whole_end as int));
    let mut point: bool = false;
    if whole_end < text.len() {
        assert(behind[0] == text@[whole_end as int]);
        point = text[whole_end] == '.';
    }
    let tail_start: usize = if point {
        whole_end + 1
    } else {
        whole_end
    };
    let ghost tail = text@.skip(tail_start as int);
    assert(point ==> behind.skip(1) =~= tail);
    let end: usize = if point {
        skip_digits(text, tail_start)
    } else {
        tail_start
    };
    let ghost fraction = end - tail_start;
    assert(tail.skip(fraction) =~= text@.skip(end as int));
    let read = match read_exponent(text, end) {
        None => {
            return None;
        },
        Some(read) => read,
    };
    let mut digits: Vec<char> = Vec::new();
    append_range(&mut digits, text, from, whole_end);
    append_range(&mut digits, text, tail_start, end);
    if digits.len() == 0 {
        return None;
    }
    proof {
        assert(digits@ =~= rest.take(whole) + tail.take(fraction));
        lemma_leading_digits(rest);
        lemma_leading_digits(tail);
        assert forall|i: int| 0 <= i < digits@.len() implies crate::text::is_digit(
            #[trigger] digits@[i],
        ) by {
            if i < whole {
                assert(digits@[i] == rest.take(whole)[i]);
            } else {
                assert(digits@[i] == tail.take(fraction)[i - whole]);
            }
        }
        lemma_exponent_limit(
            digits@,
            fraction,
            exponent(tail.skip(fraction))->0,
            read as int,
        );
    }
    let places: i128 = (end - tail_start) as i128;
    Some(round_decimal(&digits, read - places))
}

/// The amount that a text says in base ten: an optional sign, then a number,
/// `inf`, `infinity` or `nan`, the words in upper or lower case.
pub fn parse(text: &str) -> (amount: Option<Amount>)
    ensures
        amount is Some <==> reading(text@) is Some,
        amount matches Some(a) ==> says(text@, a),
{
    let text = characters(text);
    let mut start: usize = 0;
    let mut negative: bool = false;
    if text.len() > 0 && (text[0] == '+' || text[0] == '-') {
        negative = text[0] == '-';
        start = 1;
    }
    let ghost rest = without_sign(text@);
    assert(rest =~= text@.skip(start as int));
    let inf: Vec<char> = vec!['i', 'n', 'f'];
    let infinity: Vec<char> = vec!['i', 'n', 'f', 'i', 'n', 'i', 't', 'y'];
    let nan: Vec<char> = vec!['n', 'a', 'n'];
    assert(inf@ =~= seq!['i', 'n', 'f']);
    assert(infinity@ =~= seq!['i', 'n', 'f', 'i', 'n', 'i', 't', 'y']);
    assert(nan@ =~= seq!['n', 'a', 'n']);
    if is_word(&text, start, &inf) || is_word(&text, start, &infinity) {
        return Some(Amount::join(negative, INFINITY));
    }
    if is_word(&text, start, &nan) {
        return Some(Amount { bits: NOT_A_NUMBER });
    }
    match read_number(&text, start) {
        None => None,
        Some(pattern) => Some(Amount::join(negative, pattern)),
    }
}

/// A text says at most one amount, unless it says that there is no number.
pub proof fn law_a_text_says_one_amount(text: Seq<char>, one: Amount, other: Amount)
    requires
        says(text, one),
        says(text, other),
        !one.is_nan(),
    ensures
        one == other,
{
}

/// A finite amount in base ten, to the last digit: it is a count of units of
/// 2^-1074, and one unit is 5^1074 times 10^-1074.
pub open spec fn exact_text(amount: Amount) -> Seq<char> {
    let sign = if amount.is_negative() {
        seq!['-']
    } else {
        Seq::empty()
    };
    sign + crate::text::decimal_text(
        crate::rounding::magnitude(amount.pattern()) * crate::positional::power(5, 1074),
    ) + seq!['e', '-'] + crate::text::decimal_text(1074)
}

/// Every finite amount can be written, and reads back as itself.
pub proof fn law_an_amount_reads_back(amount: Amount)
    requires
        amount.is_finite(),
    ensures
        says(exact_text(amount), amount),
{
    let text = exact_text(amount);
    let units = crate::rounding::magnitude(amount.pattern());
    let five = crate::positional::power(5, 1074);
    let two = crate::rounding::pow2(1074);
    let ten = crate::positional::power(10, 1074);
    let count = units * five;
    let digits = crate::text::decimal_text(count);
    let places = crate::text::decimal_text(1074);
    let behind = seq!['e', '-'] + places;
    crate::rounding::lemma_magnitude_nonnegative(amount.pattern());
    crate::positional::lemma_power_positive(5, 1074);
    crate::positional::lemma_power_positive(2, 1074);
    crate::positional::lemma_power_positive(10, 1074);
    assert(0 <= count) by (nonlinear_arith)
        requires
            count == units * five,
            0 <= units,
            0 < five,
    ;
    crate::text::lemma_decimal_text(count);
    crate::text::lemma_decimal_text(1074);
    // The text is read as its digits times 10^-1074.
    let rest = without_sign(text);
    assert(rest =~= digits + behind) by {
        assert(crate::text::is_digit(digits[0]));
        if !amount.is_negative() {
            assert(text =~= digits + behind);
            assert(text[0] == digits[0]);
        }
    }
    assert(has_minus(text) == amount.is_negative()) by {
        assert(crate::text::is_digit(digits[0]));
        if !amount.is_negative() {
            assert(text[0] == digits[0]);
        }
    }
    assert(crate::text::is_digit(rest[0])) by {
        assert(crate::text::is_digit(digits[0]));
        assert(rest[0] == digits[0]);
    }
    lemma_digits_then(digits, behind);
    assert(rest.skip(digits.len() as int) =~= behind);
    assert(behind.skip(0) =~= behind);
    assert(behind.skip(1).skip(1) =~= places);
    assert(rest.take(digits.len() as int) + behind.take(0) =~= digits);
    assert(reading(text) == Some(Reading::Number { digits, exponent: -1074 }));
    // The powers of two and five make one of ten.
    vstd::arithmetic::power::lemma_pow_distributes(2, 5, 1074);
    assert(count * two == units * ten) by (nonlinear_arith)
        requires
            count == units * five,
            ten == two * five,
    ;
    crate::rounding::lemma_nearest_exact(amount.pattern(), count * two, ten);
}

/// Digits before something else are all counted.
pub proof fn lemma_digits_then(digits: Seq<char>, behind: Seq<char>)
    requires
        crate::text::all_digits(digits),
        behind.len() > 0 ==> !crate::text::is_digit(behind[0]),
    ensures
        leading_digits(digits + behind) == digits.len(),
    decreases digits.len(),
{
    let text = digits + behind;
    if digits.len() > 0 {
        assert(crate::text::is_digit(digits[0]));
        assert(text[0] == digits[0]);
        assert(text.skip(1) =~= digits.skip(1) + behind);
        assert forall|i: int| 0 <= i < digits.skip(1).len() implies crate::text::is_digit(
            #[trigger] digits.skip(1)[i],
        ) by {
            assert(crate::text::is_digit(digits[i + 1]));
        }
        lemma_digits_then(digits.skip(1), behind);
    } else {
        assert(text =~= behind);
    }
}

} // verus!
