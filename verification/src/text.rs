//! Texts and the whole numbers written in them.

use vstd::prelude::*;

verus! {

/// `c` is an ASCII digit.
pub open spec fn is_digit(c: char) -> bool {
    '0' <= c <= '9'
}

/// Every character is an ASCII digit.
pub open spec fn all_digits(text: Seq<char>) -> bool {
    forall|i: int| 0 <= i < text.len() ==> is_digit(#[trigger] text[i])
}

/// The number that a digit stands for.
pub open spec fn digit_value(c: char) -> int {
    c as int - '0' as int
}

/// The number that a row of digits stands for, in base ten.
pub open spec fn digits_value(text: Seq<char>) -> int
    decreases text.len(),
{
    if text.len() == 0 {
        0
    } else {
        10 * digits_value(text.drop_last()) + digit_value(text.last())
    }
}

/// The whole number that a text stands for: an optional `+`, then digits and
/// nothing else, at least one.
pub open spec fn whole_number(text: Seq<char>) -> Option<int> {
    let digits = if text.len() > 0 && text[0] == '+' {
        text.skip(1)
    } else {
        text
    };
    if digits.len() > 0 && all_digits(digits) {
        Some(digits_value(digits))
    } else {
        None
    }
}

/// The character of a digit.
pub open spec fn digit_char(digit: int) -> char {
    ('0' as int + digit) as char
}

/// A whole number in base ten, without leading zeros.
pub open spec fn decimal_text(number: int) -> Seq<char>
    decreases number,
{
    if number < 10 {
        seq![digit_char(number)]
    } else {
        decimal_text(number / 10).push(digit_char(number % 10))
    }
}

/// The characters of a text.
pub fn characters(text: &str) -> (characters: Vec<char>)
    ensures
        characters@ == text@,
{
    let mut characters: Vec<char> = Vec::new();
    for c in it: text.chars()
        invariant
            characters@ == it.seq().take(it.index() as int),
            it.seq() == text@,
    {
        characters.push(c);
    }
    characters
}

/// Whether `c` is an ASCII digit.
pub fn digit(c: char) -> (digit: bool)
    ensures
        digit == is_digit(c),
{
    '0' <= c && c <= '9'
}

/// The whole number that a text stands for, unless it is above `max` or the
/// text does not stand for one.
pub fn parse_whole(text: &str, max: u64) -> (number: Option<u64>)
    ensures
        number matches Some(n) ==> whole_number(text@) == Some(n as int) && n <= max,
        number is None ==> (whole_number(text@) matches Some(n) ==> n > max),
{
    let characters = characters(text);
    let start: usize = if characters.len() > 0 && characters[0] == '+' {
        1
    } else {
        0
    };
    let ghost digits = characters@.skip(start as int);
    assert(start == 0 ==> digits =~= characters@);
    if start == characters.len() {
        return None;
    }
    let mut number: u64 = 0;
    let mut i: usize = start;
    while i < characters.len()
        invariant
            start <= i <= characters@.len(),
            digits == characters@.skip(start as int),
            forall|j: int| 0 <= j < i - start ==> is_digit(#[trigger] digits[j]),
            number == digits_value(digits.take(i - start)),
            number <= max,
            whole_number(text@) == (if all_digits(digits) {
                Some(digits_value(digits))
            } else {
                None
            }),
        decreases characters@.len() - i,
    {
        let c: char = characters[i];
        assert(digits[i - start] == c);
        if !digit(c) {
            return None;
        }
        let d: u64 = c as u64 - '0' as u64;
        proof {
            let k = i - start;
            assert(digits.take(k + 1).drop_last() =~= digits.take(k));
            if all_digits(digits) {
                lemma_digits_value_grows(digits, k + 1);
            }
        }
        let longer: u128 = number as u128 * 10 + d as u128;
        if longer > max as u128 {
            return None;
        }
        number = longer as u64;
        i = i + 1;
    }
    assert(digits.take(i - start) =~= digits);
    Some(number)
}

/// More digits never make a number smaller.
pub proof fn lemma_digits_value_grows(text: Seq<char>, len: int)
    requires
        all_digits(text),
        0 <= len <= text.len(),
    ensures
        0 <= digits_value(text.take(len)) <= digits_value(text),
    decreases text.len(),
{
    if len == text.len() {
        assert(text.take(len) =~= text);
        lemma_digits_value_nonnegative(text);
    } else {
        let rest = text.drop_last();
        assert(rest.take(len) =~= text.take(len));
        lemma_digits_value_grows(rest, len);
        lemma_digits_value_nonnegative(rest);
        assert(is_digit(text[text.len() - 1]));
    }
}

/// Digits never stand for less than nothing.
pub proof fn lemma_digits_value_nonnegative(text: Seq<char>)
    requires
        all_digits(text),
    ensures
        0 <= digits_value(text),
    decreases text.len(),
{
    if text.len() > 0 {
        lemma_digits_value_nonnegative(text.drop_last());
        assert(is_digit(text[text.len() - 1]));
    }
}

/// The character of a digit is that digit.
proof fn lemma_digit_char(digit: int)
    requires
        0 <= digit < 10,
    ensures
        is_digit(digit_char(digit)),
        digit_value(digit_char(digit)) == digit,
{
}

/// What is written in base ten is a row of digits that stands for the number.
pub proof fn lemma_decimal_text(number: int)
    requires
        0 <= number,
    ensures
        decimal_text(number).len() > 0,
        all_digits(decimal_text(number)),
        digits_value(decimal_text(number)) == number,
    decreases number,
{
    let text = decimal_text(number);
    lemma_digit_char(number % 10);
    if number < 10 {
        assert(text.drop_last() =~= Seq::empty());
        assert(digits_value(text.drop_last()) == 0);
    } else {
        lemma_decimal_text(number / 10);
        assert(text.drop_last() =~= decimal_text(number / 10));
    }
}

/// A whole number that is written in base ten reads back as itself.
pub proof fn law_a_whole_number_reads_back(number: int)
    requires
        0 <= number,
    ensures
        whole_number(decimal_text(number)) == Some(number),
{
    lemma_decimal_text(number);
    assert(is_digit(decimal_text(number)[0]));
}

/// The digits are the ten characters from `0` to `9`, and each stands for its
/// distance from `0`.
pub proof fn law_a_digit_stands_for_its_place(c: char)
    ensures
        is_digit(c) <==> 48 <= c as int <= 57,
        digits_value(seq![c]) == c as int - 48,
        digits_value(Seq::<char>::empty()) == 0,
{
    assert(seq![c].drop_last() =~= Seq::<char>::empty());
    assert(digits_value(seq![c].drop_last()) == 0);
}

/// Digits that stand before others count as many times ten as there are others.
pub proof fn law_digits_stand_for_their_places(left: Seq<char>, right: Seq<char>)
    ensures
        digits_value(left + right) == digits_value(left) * crate::positional::power(
            10,
            right.len() as int,
        ) + digits_value(right),
    decreases right.len(),
{
    let v = digits_value(left);
    if right.len() == 0 {
        assert(left + right =~= left);
        vstd::arithmetic::power::lemma_pow0(10);
        assert(v * 1 == v);
    } else {
        let rest = right.drop_last();
        let p = crate::positional::power(10, rest.len() as int);
        assert((left + right).drop_last() =~= left + rest);
        law_digits_stand_for_their_places(left, rest);
        crate::positional::lemma_power_step(10, rest.len() as int);
        assert(10 * (v * p) == v * (10 * p)) by (nonlinear_arith);
    }
}

/// A number is written in base ten in one way: as the row of digits that stands
/// for it and has no zero in front, unless it is zero itself.
pub proof fn law_a_number_is_written_without_leading_zeros(number: int)
    requires
        0 <= number,
    ensures
        decimal_text(number).len() > 0,
        all_digits(decimal_text(number)),
        digits_value(decimal_text(number)) == number,
        decimal_text(number)[0] == '0' <==> number == 0,
        number == 0 ==> decimal_text(number).len() == 1,
    decreases number,
{
    lemma_decimal_text(number);
    if number >= 10 {
        law_a_number_is_written_without_leading_zeros(number / 10);
        assert(decimal_text(number)[0] == decimal_text(number / 10)[0]);
    }
}

/// A row of digits, with or without a plus sign, is read as the number that it
/// stands for, up to the limit.
pub proof fn law_a_row_of_digits_is_its_number(
    text: &str,
    plus: bool,
    digits: Seq<char>,
    max: u64,
    number: Option<u64>,
)
    requires
        digits.len() > 0,
        all_digits(digits),
        text@ == (if plus {
            seq!['+']
        } else {
            Seq::empty()
        }) + digits,
        call_ensures(parse_whole, (text, max), number),
    ensures
        number is Some <==> digits_value(digits) <= max,
        number matches Some(n) ==> n == digits_value(digits),
{
    assert(is_digit(digits[0]));
    if plus {
        assert(text@.skip(1) =~= digits);
    } else {
        assert(text@ =~= digits);
    }
    assert(whole_number(text@) == Some(digits_value(digits)));
}

/// Nothing but a row of digits, with or without a plus sign, is read as a number.
pub proof fn law_only_a_row_of_digits_is_a_number(text: &str, max: u64, number: Option<u64>)
    requires
        call_ensures(parse_whole, (text, max), number),
        number is Some,
    ensures
        text@.len() > 0,
        forall|i: int|
            0 <= i < text@.len() ==> is_digit(#[trigger] text@[i]) || (i == 0 && text@[i] == '+'),
        text@.len() == 1 ==> is_digit(text@[0]),
{
    if text@[0] == '+' {
        assert forall|i: int| 0 < i < text@.len() implies is_digit(#[trigger] text@[i]) by {
            assert(text@.skip(1)[i - 1] == text@[i]);
        }
    }
}

} // verus!
