//! What holds of every amount that is written in base ten.

use crate::amount::Amount;
use crate::decimal::{parse, Reading};
use crate::rounding::FRACTIONS;
use vstd::prelude::*;

verus! {

/// No sign, a plus sign or a minus sign.
pub open spec fn is_sign(sign: Seq<char>) -> bool {
    sign == Seq::<char>::empty() || sign == seq!['+'] || sign == seq!['-']
}

/// A number in base ten, by the parts that it is written in.
pub struct Numeral {
    pub sign: Seq<char>,
    /// The digits before the point.
    pub whole: Seq<char>,
    pub point: bool,
    /// The digits behind the point.
    pub fraction: Seq<char>,
    /// `e` or `E` where there is an exponent.
    pub mark: Seq<char>,
    pub power_sign: Seq<char>,
    /// The digits of the exponent.
    pub power: Seq<char>,
}

impl Numeral {
    /// There is a digit before or behind the point, and behind it only where
    /// there is a point. An exponent has its mark and at least one digit.
    pub open spec fn is_valid(self) -> bool {
        &&& is_sign(self.sign)
        &&& crate::text::all_digits(self.whole)
        &&& crate::text::all_digits(self.fraction)
        &&& self.whole.len() + self.fraction.len() > 0
        &&& !self.point ==> self.fraction.len() == 0
        &&& if self.mark.len() == 0 {
            self.power_sign.len() == 0 && self.power.len() == 0
        } else {
            &&& self.mark == seq!['e'] || self.mark == seq!['E']
            &&& is_sign(self.power_sign)
            &&& crate::text::all_digits(self.power)
            &&& self.power.len() > 0
        }
    }

    /// What the parts are written as, one behind the other.
    pub open spec fn text(self) -> Seq<char> {
        self.sign + self.whole + (if self.point {
            seq!['.']
        } else {
            Seq::empty()
        }) + self.fraction + self.mark + self.power_sign + self.power
    }

    /// Ten to this power is what the digits, read without the point, are
    /// multiplied with.
    pub open spec fn exponent(self) -> int {
        (if self.power_sign == seq!['-'] {
            -crate::text::digits_value(self.power)
        } else {
            crate::text::digits_value(self.power)
        }) - self.fraction.len()
    }

    /// The number without its sign is this, divided by the denominator.
    pub open spec fn numerator(self) -> int {
        crate::text::digits_value(self.whole + self.fraction) * (if self.exponent() >= 0 {
            crate::positional::power(10, self.exponent())
        } else {
            1
        })
    }

    pub open spec fn denominator(self) -> int {
        if self.exponent() >= 0 {
            1
        } else {
            crate::positional::power(10, -self.exponent())
        }
    }
}

/// How an exponent is read.
proof fn lemma_exponent(mark: Seq<char>, sign: Seq<char>, digits: Seq<char>)
    requires
        mark == seq!['e'] || mark == seq!['E'],
        is_sign(sign),
        crate::text::all_digits(digits),
        digits.len() > 0,
    ensures
        crate::decimal::exponent(mark + (sign + digits)) == Some(
            if sign == seq!['-'] {
                -crate::text::digits_value(digits)
            } else {
                crate::text::digits_value(digits)
            },
        ),
{
    let text = mark + (sign + digits);
    let signed = sign + digits;
    assert(text[0] == mark[0]);
    assert(text.skip(1) =~= signed);
    assert(crate::text::is_digit(digits[0]));
    if sign.len() == 0 {
        assert(signed =~= digits);
    } else {
        assert(signed[0] == sign[0]);
        assert(signed.skip(1) =~= digits);
        assert(sign[0] == '-' ==> sign =~= seq!['-']);
    }
}

/// How digits with a point among them are read.
proof fn lemma_number(whole: Seq<char>, point: bool, fraction: Seq<char>, tail: Seq<char>)
    requires
        crate::text::all_digits(whole),
        crate::text::all_digits(fraction),
        whole.len() + fraction.len() > 0,
        !point ==> fraction.len() == 0,
        tail.len() > 0 ==> tail[0] == 'e' || tail[0] == 'E',
    ensures
        crate::decimal::number(with_point(whole, point, fraction, tail)) == match
            crate::decimal::exponent(tail) {
            Some(e) => Some(
                Reading::Number { digits: whole + fraction, exponent: e - fraction.len() },
            ),
            None => None,
        },
{
    let behind = if point {
        seq!['.'] + (fraction + tail)
    } else {
        tail
    };
    let body = with_point(whole, point, fraction, tail);
    let w = whole.len() as int;
    let f = fraction.len() as int;
    crate::decimal::lemma_digits_then(whole, behind);
    assert(body.skip(w) =~= behind);
    assert(body.take(w) =~= whole);
    if point {
        crate::decimal::lemma_digits_then(fraction, tail);
        assert(behind.skip(1) =~= fraction + tail);
        assert((fraction + tail).skip(f) =~= tail);
        assert((fraction + tail).take(f) =~= fraction);
    } else {
        assert(tail.skip(0) =~= tail);
        assert(tail.take(0) =~= fraction);
    }
}

/// Digits, with or without a point among them, and what stands behind.
spec fn with_point(
    whole: Seq<char>,
    point: bool,
    fraction: Seq<char>,
    tail: Seq<char>,
) -> Seq<char> {
    whole + (if point {
        seq!['.'] + (fraction + tail)
    } else {
        tail
    })
}

/// How a sign before a number is read.
proof fn lemma_signed(sign: Seq<char>, body: Seq<char>)
    requires
        is_sign(sign),
        body.len() > 0,
        crate::text::is_digit(body[0]) || body[0] == '.',
    ensures
        crate::decimal::has_minus(sign + body) == (sign == seq!['-']),
        crate::decimal::reading(sign + body) == crate::decimal::number(body),
{
    let text = sign + body;
    if sign.len() == 0 {
        assert(text =~= body);
    } else {
        assert(text[0] == sign[0]);
        assert(text.skip(1) =~= body);
        assert(sign[0] == '-' ==> sign =~= seq!['-']);
    }
    let short = seq!['i', 'n', 'f'];
    let long = seq!['i', 'n', 'f', 'i', 'n', 'i', 't', 'y'];
    let nan = seq!['n', 'a', 'n'];
    assert(!crate::decimal::is_letter(body[0], short[0]));
    assert(!crate::decimal::is_letter(body[0], long[0]));
    assert(!crate::decimal::is_letter(body[0], nan[0]));
}

/// The parts of a numeral, from the last one on.
proof fn lemma_text(numeral: Numeral)
    requires
        !numeral.point ==> numeral.fraction.len() == 0,
    ensures
        numeral.text() == numeral.sign + with_point(
            numeral.whole,
            numeral.point,
            numeral.fraction,
            numeral.mark + (numeral.power_sign + numeral.power),
        ),
{
    assert(numeral.text() =~= numeral.sign + with_point(
        numeral.whole,
        numeral.point,
        numeral.fraction,
        numeral.mark + (numeral.power_sign + numeral.power),
    ));
}

/// How a numeral is taken apart.
pub proof fn lemma_numeral(numeral: Numeral)
    requires
        numeral.is_valid(),
    ensures
        crate::decimal::has_minus(numeral.text()) == (numeral.sign == seq!['-']),
        crate::decimal::reading(numeral.text()) == Some(
            Reading::Number {
                digits: numeral.whole + numeral.fraction,
                exponent: numeral.exponent(),
            },
        ),
{
    let tail = numeral.mark + (numeral.power_sign + numeral.power);
    let body = with_point(numeral.whole, numeral.point, numeral.fraction, tail);
    lemma_text(numeral);
    if numeral.mark.len() == 0 {
        assert(tail.len() == 0);
        assert(numeral.power.len() == 0);
        assert(numeral.power_sign.len() != seq!['-'].len());
    } else {
        lemma_exponent(numeral.mark, numeral.power_sign, numeral.power);
        assert(tail[0] == numeral.mark[0]);
    }
    lemma_number(numeral.whole, numeral.point, numeral.fraction, tail);
    if numeral.whole.len() > 0 {
        assert(body[0] == numeral.whole[0]);
        assert(crate::text::is_digit(numeral.whole[0]));
    } else {
        assert(body[0] == '.');
    }
    lemma_signed(numeral.sign, body);
}

/// What a numeral says.
pub proof fn lemma_what_a_numeral_says(numeral: Numeral, amount: Amount)
    requires
        numeral.is_valid(),
        crate::decimal::says(numeral.text(), amount),
    ensures
        amount.is_negative() == (numeral.sign == seq!['-']),
        amount.pattern() == crate::rounding::nearest(
            numeral.numerator() * crate::rounding::pow2(1074),
            numeral.denominator(),
        ),
{
    lemma_numeral(numeral);
    let d = crate::text::digits_value(numeral.whole + numeral.fraction);
    assert(d * 1 == d);
}

/// A number in base ten, in whatever parts it is written, is read as the
/// binary64 number that is nearest to it, with its sign.
pub proof fn law_a_numeral_is_the_nearest_amount(
    numeral: Numeral,
    text: &str,
    read: Option<Amount>,
)
    requires
        numeral.is_valid(),
        text@ == numeral.text(),
        call_ensures(parse, (text,), read),
    ensures
        read matches Some(amount) && {
            &&& amount.is_negative() == (numeral.sign == seq!['-'])
            &&& amount.pattern() == crate::rounding::nearest(
                numeral.numerator() * crate::rounding::pow2(1074),
                numeral.denominator(),
            )
        },
{
    lemma_numeral(numeral);
    if let Some(amount) = read {
        lemma_what_a_numeral_says(numeral, amount);
    }
}

/// A row of digits without a point and without an exponent is read as the whole
/// number that it stands for.
pub proof fn law_a_row_of_digits_is_a_whole_amount(
    digits: Seq<char>,
    text: &str,
    read: Option<Amount>,
)
    requires
        digits.len() > 0,
        crate::text::all_digits(digits),
        text@ == digits,
        call_ensures(parse, (text,), read),
    ensures
        read matches Some(amount) && {
            &&& !amount.is_negative()
            &&& amount.pattern() == crate::rounding::nearest(
                crate::text::digits_value(digits) * crate::rounding::pow2(1074),
                1,
            )
        },
{
    let none = Seq::<char>::empty();
    let numeral = Numeral {
        sign: none,
        whole: digits,
        point: false,
        fraction: none,
        mark: none,
        power_sign: none,
        power: none,
    };
    assert(numeral.text() =~= digits);
    assert(digits + none =~= digits);
    crate::text::law_a_digit_stands_for_its_place('0');
    vstd::arithmetic::power::lemma_pow0(10);
    let d = crate::text::digits_value(digits);
    assert(none != seq!['-']) by {
        assert(none.len() != seq!['-'].len());
    }
    assert(numeral.exponent() == 0);
    assert(d * 1 == d);
    law_a_numeral_is_the_nearest_amount(numeral, text, read);
}

/// Digits with a point among them are read as the whole number that they stand
/// for without it, divided by ten for each digit behind the point.
pub proof fn law_a_point_divides(
    whole: Seq<char>,
    fraction: Seq<char>,
    text: &str,
    read: Option<Amount>,
)
    requires
        whole.len() + fraction.len() > 0,
        crate::text::all_digits(whole),
        crate::text::all_digits(fraction),
        text@ == whole + seq!['.'] + fraction,
        call_ensures(parse, (text,), read),
    ensures
        read matches Some(amount) && {
            &&& !amount.is_negative()
            &&& amount.pattern() == crate::rounding::nearest(
                crate::text::digits_value(whole + fraction) * crate::rounding::pow2(1074),
                crate::positional::power(10, fraction.len() as int),
            )
        },
{
    let none = Seq::<char>::empty();
    let numeral = Numeral {
        sign: none,
        whole,
        point: true,
        fraction,
        mark: none,
        power_sign: none,
        power: none,
    };
    assert(numeral.text() =~= whole + seq!['.'] + fraction);
    crate::text::law_a_digit_stands_for_its_place('0');
    vstd::arithmetic::power::lemma_pow0(10);
    let d = crate::text::digits_value(whole + fraction);
    assert(none != seq!['-']) by {
        assert(none.len() != seq!['-'].len());
    }
    assert(numeral.exponent() == -fraction.len());
    assert(d * 1 == d);
    law_a_numeral_is_the_nearest_amount(numeral, text, read);
}

/// Every whole number up to 2^53 is read exactly.
pub proof fn law_a_whole_number_is_read_exactly(number: int, text: &str, read: Option<Amount>)
    requires
        0 <= number <= 0x0020_0000_0000_0000,
        text@ == crate::text::decimal_text(number),
        call_ensures(parse, (text,), read),
    ensures
        read matches Some(amount) && amount.is_finite() && amount.units() == number
            * crate::rounding::pow2(1074),
{
    crate::text::lemma_decimal_text(number);
    law_a_row_of_digits_is_a_whole_amount(text@, text, read);
    let pattern = crate::rounding::lemma_representable(number, 1074);
    assert(2 * FRACTIONS == 0x0020_0000_0000_0000);
    let m = crate::rounding::magnitude(pattern);
    assert(m * 1 == m);
    crate::rounding::lemma_nearest_exact(pattern, m, 1);
}

/// A number that is not less than another is not read as less.
pub proof fn law_larger_numbers_are_not_smaller_amounts(
    lower: Numeral,
    upper: Numeral,
    lower_text: &str,
    upper_text: &str,
    lower_read: Option<Amount>,
    upper_read: Option<Amount>,
)
    requires
        lower.is_valid(),
        upper.is_valid(),
        lower.numerator() * upper.denominator() <= upper.numerator() * lower.denominator(),
        lower_text@ == lower.text(),
        upper_text@ == upper.text(),
        call_ensures(parse, (lower_text,), lower_read),
        call_ensures(parse, (upper_text,), upper_read),
    ensures
        lower_read is Some,
        upper_read is Some,
        lower_read->0.pattern() <= upper_read->0.pattern(),
{
    law_a_numeral_is_the_nearest_amount(lower, lower_text, lower_read);
    law_a_numeral_is_the_nearest_amount(upper, upper_text, upper_read);
    lemma_quotient(lower);
    lemma_quotient(upper);
    let unit = crate::rounding::pow2(1074);
    let a = lower.numerator();
    let b = upper.numerator();
    let c = lower.denominator();
    let d = upper.denominator();
    vstd::arithmetic::power2::lemma_pow2_pos(1074);
    assert((a * unit) * (c * d) == c * ((a * d) * unit)) by (nonlinear_arith);
    assert((b * unit) * (c * d) == d * ((b * c) * unit)) by (nonlinear_arith);
    assert(0 <= a * unit && 0 <= b * unit && c * d > 0) by (nonlinear_arith)
        requires
            0 <= a,
            0 <= b,
            0 < c,
            0 < d,
            0 < unit,
    ;
    assert(0 <= (a * d) * unit <= (b * c) * unit) by (nonlinear_arith)
        requires
            0 <= a,
            0 < d,
            0 < unit,
            a * d <= b * c,
    ;
    crate::rounding::lemma_nearest_equal_quotients(a * unit, c, (a * d) * unit, c * d);
    crate::rounding::lemma_nearest_equal_quotients(b * unit, d, (b * c) * unit, c * d);
    crate::rounding::lemma_nearest_monotone((a * d) * unit, (b * c) * unit, c * d);
}

proof fn lemma_quotient(numeral: Numeral)
    requires
        numeral.is_valid(),
    ensures
        numeral.numerator() >= 0,
        numeral.denominator() > 0,
{
    let digits = numeral.whole + numeral.fraction;
    let d = crate::text::digits_value(digits);
    assert(crate::text::all_digits(digits));
    crate::text::lemma_digits_value_nonnegative(digits);
    if numeral.exponent() >= 0 {
        let p = crate::positional::power(10, numeral.exponent());
        crate::positional::lemma_power_positive(10, numeral.exponent());
        assert(d * p >= 0) by (nonlinear_arith)
            requires
                d >= 0,
                p > 0,
        ;
    } else {
        crate::positional::lemma_power_positive(10, -numeral.exponent());
    }
}

/// A minus sign before a text without a sign changes the sign of what is read
/// and nothing else, and a plus sign changes nothing.
pub proof fn law_a_sign_is_only_a_sign(
    plain: &str,
    positive: &str,
    negative: &str,
    plain_read: Option<Amount>,
    positive_read: Option<Amount>,
    negative_read: Option<Amount>,
)
    requires
        plain@.len() > 0 ==> plain@[0] != '+' && plain@[0] != '-',
        positive@ == seq!['+'] + plain@,
        negative@ == seq!['-'] + plain@,
        call_ensures(parse, (plain,), plain_read),
        call_ensures(parse, (positive,), positive_read),
        call_ensures(parse, (negative,), negative_read),
    ensures
        match plain_read {
            None => positive_read is None && negative_read is None,
            Some(amount) => {
                &&& positive_read matches Some(above)
                &&& negative_read matches Some(below)
                &&& if amount.is_nan() {
                    above.is_nan() && below.is_nan()
                } else {
                    &&& above == amount
                    &&& !amount.is_negative()
                    &&& below.bits == amount.bits + 0x8000_0000_0000_0000
                }
            },
        },
{
    assert(positive@.skip(1) =~= plain@);
    assert(negative@.skip(1) =~= plain@);
    assert(positive@[0] == '+');
    assert(negative@[0] == '-');
    if let Some(Reading::Number { digits, exponent }) = crate::decimal::reading(plain@) {
        lemma_digits_of_a_reading(plain@);
        crate::decimal::lemma_decimal_pattern_is_one(digits, exponent);
    }
}

/// The digits of what is read are digits.
proof fn lemma_digits_of_a_reading(text: Seq<char>)
    requires
        crate::decimal::reading(text) is Some,
    ensures
        crate::decimal::reading(text) matches Some(Reading::Number { digits, exponent })
            ==> crate::text::all_digits(digits),
{
    let body = crate::decimal::without_sign(text);
    let whole = crate::decimal::leading_digits(body);
    let behind = body.skip(whole);
    crate::decimal::lemma_leading_digits(body);
    crate::decimal::lemma_leading_digits(behind.skip(1));
    if let Some(Reading::Number { digits, exponent }) = crate::decimal::reading(text) {
        assert forall|i: int| 0 <= i < digits.len() implies crate::text::is_digit(
            #[trigger] digits[i],
        ) by {
            if i < whole {
                assert(digits[i] == body.take(whole)[i]);
            } else {
                let fraction = crate::decimal::leading_digits(behind.skip(1));
                assert(digits[i] == behind.skip(1).take(fraction)[i - whole]);
            }
        }
    }
}

/// `text` is `word`, each letter in lower or upper case.
pub open spec fn is_word(text: Seq<char>, word: Seq<char>) -> bool {
    &&& text.len() == word.len()
    &&& forall|i: int|
        0 <= i < text.len() ==> #[trigger] text[i] == word[i] || text[i] as int + 32
            == word[i] as int
}

/// The words for infinity and for what is not a number are read as that, in
/// lower or upper case, behind a sign or not.
pub proof fn law_words_are_amounts(
    sign: Seq<char>,
    word: Seq<char>,
    text: &str,
    read: Option<Amount>,
)
    requires
        is_sign(sign),
        text@ == sign + word,
        call_ensures(parse, (text,), read),
    ensures
        is_word(word, seq!['i', 'n', 'f']) ==> (read matches Some(amount) && amount.is_infinite()
            && amount.is_negative() == (sign == seq!['-'])),
        is_word(word, seq!['i', 'n', 'f', 'i', 'n', 'i', 't', 'y']) ==> (read matches Some(amount)
            && amount.is_infinite() && amount.is_negative() == (sign == seq!['-'])),
        is_word(word, seq!['n', 'a', 'n']) ==> (read matches Some(amount) && amount.is_nan()),
{
    let short = seq!['i', 'n', 'f'];
    let long = seq!['i', 'n', 'f', 'i', 'n', 'i', 't', 'y'];
    let nan = seq!['n', 'a', 'n'];
    if is_word(word, short) || is_word(word, long) || is_word(word, nan) {
        assert(word[0] == 'i' || word[0] == 'I' || word[0] == 'n' || word[0] == 'N');
        assert(crate::decimal::without_sign(text@) =~= word) by {
            if sign.len() == 0 {
                assert(text@ =~= word);
            } else {
                assert(text@.skip(1) =~= word);
                assert(text@[0] == sign[0]);
            }
        }
        assert(crate::decimal::has_minus(text@) == (sign == seq!['-'])) by {
            if sign.len() == 0 {
                assert(text@[0] == word[0]);
            } else {
                assert(text@[0] == sign[0]);
                assert(sign[0] == '-' ==> sign =~= seq!['-']);
            }
        }
        if is_word(word, short) {
            lemma_spells(word, short);
        } else if is_word(word, long) {
            lemma_spells(word, long);
        } else {
            lemma_spells(word, nan);
            assert(!crate::decimal::spells(word, short)) by {
                assert(!crate::decimal::is_letter(word[0], short[0]));
            }
        }
    }
}

proof fn lemma_spells(text: Seq<char>, word: Seq<char>)
    requires
        is_word(text, word),
        forall|i: int| 0 <= i < word.len() ==> 'a' <= #[trigger] word[i] <= 'z',
    ensures
        crate::decimal::spells(text, word),
{
    assert forall|i: int| 0 <= i < text.len() implies crate::decimal::is_letter(
        #[trigger] text[i],
        word[i],
    ) by {
        assert('a' <= word[i] <= 'z');
    }
}

/// Nothing but a number in base ten or one of the words is read as an amount.
pub proof fn law_nothing_else_is_an_amount(text: &str, read: Option<Amount>)
    requires
        call_ensures(parse, (text,), read),
        read is Some,
    ensures
        (exists|numeral: Numeral| #[trigger] numeral.is_valid() && text@ == numeral.text()) || {
            let body = if text@.len() > 0 && (text@[0] == '+' || text@[0] == '-') {
                text@.skip(1)
            } else {
                text@
            };
            ||| is_word(body, seq!['i', 'n', 'f'])
            ||| is_word(body, seq!['i', 'n', 'f', 'i', 'n', 'i', 't', 'y'])
            ||| is_word(body, seq!['n', 'a', 'n'])
        },
{
    let sign = if crate::decimal::has_sign(text@) {
        text@.take(1)
    } else {
        Seq::empty()
    };
    let body = crate::decimal::without_sign(text@);
    assert(text@ =~= sign + body);
    assert(is_sign(sign)) by {
        if crate::decimal::has_sign(text@) {
            assert(sign =~= seq![text@[0]]);
        }
    }
    match crate::decimal::reading(text@) {
        Some(Reading::Number { .. }) => {
            let numeral = lemma_parts_of_a_number(sign, body);
            assert(numeral.is_valid() && text@ == numeral.text());
        },
        _ => {
            let short = seq!['i', 'n', 'f'];
            let long = seq!['i', 'n', 'f', 'i', 'n', 'i', 't', 'y'];
            let nan = seq!['n', 'a', 'n'];
            if crate::decimal::spells(body, short) {
                lemma_is_word(body, short);
            } else if crate::decimal::spells(body, long) {
                lemma_is_word(body, long);
            } else {
                lemma_is_word(body, nan);
            }
        },
    }
}

proof fn lemma_is_word(text: Seq<char>, word: Seq<char>)
    requires
        crate::decimal::spells(text, word),
    ensures
        is_word(text, word),
{
    assert forall|i: int| 0 <= i < text.len() implies #[trigger] text[i] == word[i]
        || text[i] as int + 32 == word[i] as int by {
        assert(crate::decimal::is_letter(text[i], word[i]));
    }
}

/// An exponent that was read has the parts of one.
proof fn lemma_parts_of_an_exponent(text: Seq<char>) -> (parts: (Seq<char>, Seq<char>, Seq<char>))
    requires
        crate::decimal::exponent(text) is Some,
    ensures
        text == parts.0 + (parts.1 + parts.2),
        if parts.0.len() == 0 {
            parts.1.len() == 0 && parts.2.len() == 0
        } else {
            &&& parts.0 == seq!['e'] || parts.0 == seq!['E']
            &&& is_sign(parts.1)
            &&& crate::text::all_digits(parts.2)
            &&& parts.2.len() > 0
        },
{
    let none = Seq::<char>::empty();
    if text.len() == 0 {
        assert(text =~= none + (none + none));
        (none, none, none)
    } else {
        let mark = seq![text[0]];
        let signed = text.skip(1);
        let digits = crate::decimal::without_sign(signed);
        let sign = if crate::decimal::has_sign(signed) {
            seq![signed[0]]
        } else {
            none
        };
        assert(signed =~= sign + digits);
        assert(text =~= mark + signed);
        (mark, sign, digits)
    }
}

/// A number that was read has the parts of one.
proof fn lemma_parts_of_a_number(sign: Seq<char>, body: Seq<char>) -> (numeral: Numeral)
    requires
        is_sign(sign),
        crate::decimal::number(body) is Some,
    ensures
        numeral.is_valid(),
        numeral.text() == sign + body,
{
    let count = crate::decimal::leading_digits(body);
    crate::decimal::lemma_leading_digits(body);
    let behind = body.skip(count);
    let point = behind.len() > 0 && behind[0] == '.';
    let tail = if point {
        behind.skip(1)
    } else {
        behind
    };
    let places = if point {
        crate::decimal::leading_digits(tail)
    } else {
        0
    };
    crate::decimal::lemma_leading_digits(tail);
    let (mark, power_sign, power) = lemma_parts_of_an_exponent(tail.skip(places));
    let whole = body.take(count);
    let fraction = tail.take(places);
    let numeral = Numeral { sign, whole, point, fraction, mark, power_sign, power };
    assert(crate::text::all_digits(fraction)) by {
        if !point {
            assert(fraction.len() == 0);
        }
    }
    assert(body =~= whole + behind);
    if point {
        assert(tail =~= fraction + tail.skip(places));
        assert(behind =~= seq!['.'] + tail);
    } else {
        assert(tail.skip(places) =~= behind);
    }
    assert(body == with_point(whole, point, fraction, tail.skip(places)));
    lemma_text(numeral);
    numeral
}

} // verus!
