//! Whole numbers of any size, in positional notation.

use vstd::prelude::*;

verus! {

/// `base` to the power of `exponent`.
pub open spec fn power(base: int, exponent: int) -> int {
    vstd::arithmetic::power::pow(base, exponent as nat)
}

/// The number that `digits` stand for, the lowest digit first.
pub open spec fn value(digits: Seq<u64>, base: int) -> int
    decreases digits.len(),
{
    if digits.len() == 0 {
        0
    } else {
        digits[0] + base * value(digits.drop_first(), base)
    }
}

/// Every digit is below the base.
pub open spec fn are_digits(digits: Seq<u64>, base: int) -> bool {
    forall|i: int| 0 <= i < digits.len() ==> #[trigger] digits[i] < base
}

/// The digit at place `i`, zero past the last one.
pub open spec fn digit_at(digits: Seq<u64>, i: int) -> int {
    if 0 <= i < digits.len() {
        digits[i] as int
    } else {
        0
    }
}

/// The number that the lowest `places` digits stand for.
pub open spec fn low_value(digits: Seq<u64>, base: int, places: int) -> int
    decreases places,
{
    if places <= 0 {
        0
    } else {
        low_value(digits, base, places - 1) + digit_at(digits, places - 1) * power(
            base,
            places - 1,
        )
    }
}

/// A whole number.
pub struct Natural {
    base: u64,
    digits: Vec<u64>,
}

impl Natural {
    /// The base of the notation.
    pub closed spec fn base(&self) -> int {
        self.base as int
    }

    /// The digits, the lowest first.
    pub closed spec fn digits(&self) -> Seq<u64> {
        self.digits@
    }

    /// The base is at most 2^32, and every digit is below it.
    pub open spec fn wf(&self) -> bool {
        &&& 2 <= self.base() <= 0x1_0000_0000
        &&& are_digits(self.digits(), self.base())
    }

    /// The number.
    pub open spec fn number(&self) -> int {
        value(self.digits(), self.base())
    }

    /// `number`, written in the given base.
    pub fn new(base: u64, number: u64) -> (natural: Natural)
        requires
            2 <= base <= 0x1_0000_0000,
        ensures
            natural.wf(),
            natural.base() == base,
            natural.number() == number,
    {
        let mut natural = Natural { base, digits: Vec::new() };
        natural.multiply_add(1, number);
        natural
    }

    /// A copy.
    pub fn copy(&self) -> (copy: Natural)
        requires
            self.wf(),
        ensures
            copy.wf(),
            copy.base() == self.base(),
            copy.number() == self.number(),
    {
        let digits = self.digits.clone();
        assert(digits@ =~= self.digits@);
        Natural { base: self.base, digits }
    }

    /// How many digits are written.
    pub fn len(&self) -> (len: usize)
        ensures
            len == self.digits().len(),
    {
        self.digits.len()
    }

    /// The digit at place `i`.
    pub fn digit(&self, i: usize) -> (digit: u64)
        requires
            i < self.digits().len(),
        ensures
            digit == self.digits()[i as int],
    {
        self.digits[i]
    }

    /// Multiplies by `factor` and adds `addend`.
    pub fn multiply_add(&mut self, factor: u64, addend: u64)
        requires
            old(self).wf(),
        ensures
            final(self).wf(),
            final(self).base() == old(self).base(),
            final(self).number() == old(self).number() * factor + addend,
    {
        let ghost before = self.digits@;
        let ghost b = self.base as int;
        let ghost limit: int = if factor >= addend {
            factor as int
        } else {
            addend as int
        };
        let ghost total = value(before, b) * factor + addend;
        let mut carry: u64 = addend;
        let mut i: usize = 0;
        let base: u64 = self.base;
        proof {
            assert(before.skip(0) =~= before);
            vstd::arithmetic::power::lemma_pow0(b);
            assert(value(before.take(0), b) == 0);
            assert(total == 0 + power(b, 0) * (value(before.skip(0), b) * factor + carry))
                by (nonlinear_arith)
                requires
                    total == value(before.skip(0), b) * factor + carry,
                    power(b, 0) == 1,
            ;
        }
        while i < self.digits.len()
            invariant
                i <= self.digits@.len() == before.len(),
                base == self.base == b,
                2 <= b <= 0x1_0000_0000,
                are_digits(before, b),
                are_digits(self.digits@, b),
                self.digits@.skip(i as int) == before.skip(i as int),
                0 <= carry <= limit,
                factor <= limit <= u64::MAX,
                total == value(self.digits@.take(i as int), b) + power(b, i as int) * (value(
                    before.skip(i as int),
                    b,
                ) * factor + carry),
            decreases before.len() - i,
        {
            let digit: u64 = self.digits[i];
            let ghost old_digits = self.digits@;
            proof {
                assert(before.skip(i as int)[0] == before[i as int]);
                assert(old_digits.skip(i as int)[0] == old_digits[i as int]);
                assert(digit == before[i as int]);
                assert(digit * factor + carry <= b * limit) by (nonlinear_arith)
                    requires
                        0 <= digit < b,
                        0 <= factor <= limit,
                        0 <= carry <= limit,
                ;
                assert(b * limit <= 0x1_0000_0000 * 0xffff_ffff_ffff_ffff) by (nonlinear_arith)
                    requires
                        0 <= b <= 0x1_0000_0000,
                        0 <= limit <= 0xffff_ffff_ffff_ffff,
                ;
                assert(0 <= digit * factor) by (nonlinear_arith)
                    requires
                        0 <= digit,
                        0 <= factor,
                ;
            }
            let sum: u128 = digit as u128 * factor as u128 + carry as u128;
            let low: u64 = (sum % base as u128) as u64;
            let ghost old_carry = carry as int;
            let high: u128 = sum / base as u128;
            proof {
                vstd::arithmetic::div_mod::lemma_fundamental_div_mod(sum as int, b);
                assert(high <= limit) by (nonlinear_arith)
                    requires
                        sum == b * high + low,
                        0 <= low,
                        sum <= b * limit,
                        b > 0,
                ;
            }
            carry = high as u64;
            self.digits.set(i, low);
            proof {
                lemma_multiply_add_step(
                    self.digits@.take(i as int),
                    before.skip(i as int),
                    b,
                    factor as int,
                    old_carry,
                    low,
                    carry as int,
                );
                assert(old_digits.take(i as int) =~= self.digits@.take(i as int));
                assert(self.digits@.take(i + 1) =~= self.digits@.take(i as int).push(low));
                assert(before.skip(i as int).drop_first() =~= before.skip(i + 1));
                assert(self.digits@.skip(i + 1) =~= before.skip(i + 1)) by {
                    let rest = self.digits@.skip(i + 1);
                    assert forall|j: int| 0 <= j < rest.len() implies #[trigger] rest[j]
                        == before.skip(i + 1)[j] by {
                        assert(old_digits.skip(i as int)[j + 1] == before.skip(i as int)[j + 1]);
                    }
                }
            }
            i = i + 1;
        }
        proof {
            let n = before.len() as int;
            assert(self.digits@.take(n) =~= self.digits@);
            assert(value(before.skip(n), b) == 0);
            assert(value(before.skip(n), b) * factor == 0) by (nonlinear_arith)
                requires
                    value(before.skip(n), b) == 0,
            ;
        }
        while carry > 0
            invariant
                base == self.base == b,
                2 <= b <= 0x1_0000_0000,
                are_digits(self.digits@, b),
                total == value(self.digits@, b) + power(b, self.digits@.len() as int) * carry,
            decreases carry,
        {
            let low: u64 = carry % base;
            let ghost old_digits = self.digits@;
            let ghost old_carry = carry as int;
            carry = carry / base;
            self.digits.push(low);
            proof {
                vstd::arithmetic::div_mod::lemma_fundamental_div_mod(old_carry, b);
                assert(carry < old_carry) by (nonlinear_arith)
                    requires
                        old_carry == b * carry + low,
                        old_carry > 0,
                        low >= 0,
                        b >= 2,
                ;
                lemma_carry_step(old_digits, b, old_carry, low, carry as int);
            }
        }
        proof {
            assert(power(b, self.digits@.len() as int) * 0 == 0) by (nonlinear_arith);
        }
    }

    /// Multiplies by `factor`, `times` times.
    pub fn multiply_repeatedly(&mut self, factor: u64, times: u128)
        requires
            old(self).wf(),
        ensures
            final(self).wf(),
            final(self).base() == old(self).base(),
            final(self).number() == old(self).number() * power(factor as int, times as int),
    {
        let ghost start = self.number();
        let mut i: u128 = 0;
        proof {
            vstd::arithmetic::power::lemma_pow0(factor as int);
            assert(start * 1 == start);
        }
        while i < times
            invariant
                i <= times,
                self.wf(),
                self.base() == old(self).base(),
                self.number() == start * power(factor as int, i as int),
            decreases times - i,
        {
            proof {
                lemma_power_step(factor as int, i as int);
                assert((start * power(factor as int, i as int)) * factor == start * power(
                    factor as int,
                    i + 1,
                )) by (nonlinear_arith)
                    requires
                        power(factor as int, i + 1) == factor * power(factor as int, i as int),
                ;
            }
            self.multiply_add(factor, 0);
            i = i + 1;
        }
    }

    /// Whether the number is at most `other`.
    pub fn at_most(&self, other: &Natural) -> (at_most: bool)
        requires
            self.wf(),
            other.wf(),
            self.base() == other.base(),
        ensures
            at_most == (self.number() <= other.number()),
    {
        let ghost b = self.base as int;
        let places: usize = if self.digits.len() >= other.digits.len() {
            self.digits.len()
        } else {
            other.digits.len()
        };
        let mut at_most: bool = true;
        let mut i: usize = 0;
        while i < places
            invariant
                i <= places,
                places >= self.digits@.len(),
                places >= other.digits@.len(),
                b == self.base == other.base,
                2 <= b <= 0x1_0000_0000,
                are_digits(self.digits@, b),
                are_digits(other.digits@, b),
                at_most == (low_value(self.digits@, b, i as int) <= low_value(
                    other.digits@,
                    b,
                    i as int,
                )),
            decreases places - i,
        {
            let mine: u64 = if i < self.digits.len() {
                self.digits[i]
            } else {
                0
            };
            let theirs: u64 = if i < other.digits.len() {
                other.digits[i]
            } else {
                0
            };
            proof {
                lemma_compare_step(self.digits@, other.digits@, b, i as int);
            }
            if mine < theirs {
                at_most = true;
            } else if mine > theirs {
                at_most = false;
            }
            i = i + 1;
        }
        proof {
            lemma_low_value_is_value(self.digits@, b, places as int);
            lemma_low_value_is_value(other.digits@, b, places as int);
        }
        at_most
    }
}

/// One more factor.
pub proof fn lemma_power_step(base: int, exponent: int)
    requires
        0 <= exponent,
    ensures
        power(base, exponent + 1) == base * power(base, exponent),
{
    reveal(vstd::arithmetic::power::pow);
    assert((exponent + 1) as nat - 1 == exponent);
}

/// A power of a positive base is positive.
pub proof fn lemma_power_positive(base: int, exponent: int)
    requires
        0 < base,
        0 <= exponent,
    ensures
        0 < power(base, exponent),
{
    vstd::arithmetic::power::lemma_pow_positive(base, exponent as nat);
}

/// A digit on top counts as many times the base as there are digits below.
proof fn lemma_value_push(digits: Seq<u64>, base: int, digit: u64)
    ensures
        value(digits.push(digit), base) == value(digits, base) + digit * power(
            base,
            digits.len() as int,
        ),
    decreases digits.len(),
{
    let pushed = digits.push(digit);
    if digits.len() == 0 {
        vstd::arithmetic::power::lemma_pow0(base);
        assert(pushed.drop_first() =~= Seq::<u64>::empty());
        assert(value(pushed.drop_first(), base) == 0);
        assert(base * 0 == 0);
    } else {
        let rest = digits.drop_first();
        assert(pushed.drop_first() =~= rest.push(digit));
        lemma_value_push(rest, base, digit);
        lemma_power_step(base, rest.len() as int);
        let v = value(rest, base);
        let p = power(base, rest.len() as int);
        assert(base * (v + digit * p) == base * v + digit * (base * p)) by (nonlinear_arith);
    }
}

/// One digit is multiplied, and the carry handed on.
proof fn lemma_multiply_add_step(
    done: Seq<u64>,
    rest: Seq<u64>,
    base: int,
    factor: int,
    carry: int,
    low: u64,
    high: int,
)
    requires
        rest.len() > 0,
        rest[0] * factor + carry == base * high + low,
    ensures
        value(done, base) + power(base, done.len() as int) * (value(rest, base) * factor + carry)
            == value(done.push(low), base) + power(base, done.len() as int + 1) * (value(
            rest.drop_first(),
            base,
        ) * factor + high),
{
    lemma_value_push(done, base, low);
    lemma_power_step(base, done.len() as int);
    let p = power(base, done.len() as int);
    let v = value(rest.drop_first(), base);
    let d = rest[0] as int;
    assert(p * ((d + base * v) * factor + carry) == low * p + (base * p) * (v * factor + high))
        by (nonlinear_arith)
        requires
            d * factor + carry == base * high + low,
    ;
}

/// One digit of the last carry is written.
proof fn lemma_carry_step(digits: Seq<u64>, base: int, carry: int, low: u64, high: int)
    requires
        carry == base * high + low,
    ensures
        value(digits, base) + power(base, digits.len() as int) * carry == value(
            digits.push(low),
            base,
        ) + power(base, digits.len() as int + 1) * high,
{
    lemma_value_push(digits, base, low);
    lemma_power_step(base, digits.len() as int);
    let p = power(base, digits.len() as int);
    assert(p * carry == low * p + (base * p) * high) by (nonlinear_arith)
        requires
            carry == base * high + low,
    ;
}

/// The lowest digits stand for less than the next place does.
proof fn lemma_low_value_bound(digits: Seq<u64>, base: int, places: int)
    requires
        2 <= base,
        are_digits(digits, base),
        0 <= places,
    ensures
        0 <= low_value(digits, base, places) < power(base, places),
    decreases places,
{
    if places == 0 {
        vstd::arithmetic::power::lemma_pow0(base);
    } else {
        lemma_low_value_bound(digits, base, places - 1);
        lemma_power_step(base, places - 1);
        let p = power(base, places - 1);
        let d = digit_at(digits, places - 1);
        assert(0 <= d * p && d * p + p <= base * p) by (nonlinear_arith)
            requires
                0 <= d < base,
                0 < p,
        ;
    }
}

/// A higher place decides before the lower ones do.
proof fn lemma_compare_step(one: Seq<u64>, other: Seq<u64>, base: int, i: int)
    requires
        2 <= base,
        are_digits(one, base),
        are_digits(other, base),
        0 <= i,
    ensures
        digit_at(one, i) < digit_at(other, i) ==> low_value(one, base, i + 1) < low_value(
            other,
            base,
            i + 1,
        ),
        digit_at(one, i) > digit_at(other, i) ==> low_value(one, base, i + 1) > low_value(
            other,
            base,
            i + 1,
        ),
        digit_at(one, i) == digit_at(other, i) ==> (low_value(one, base, i + 1) <= low_value(
            other,
            base,
            i + 1,
        ) <==> low_value(one, base, i) <= low_value(other, base, i)),
{
    lemma_low_value_bound(one, base, i);
    lemma_low_value_bound(other, base, i);
    let p = power(base, i);
    let c = digit_at(one, i);
    let d = digit_at(other, i);
    if c < d {
        assert(c * p + p <= d * p) by (nonlinear_arith)
            requires
                c < d,
                0 < p,
        ;
    } else if d < c {
        assert(d * p + p <= c * p) by (nonlinear_arith)
            requires
                d < c,
                0 < p,
        ;
    }
}

/// Places past the last digit add nothing.
proof fn lemma_low_value_is_value(digits: Seq<u64>, base: int, places: int)
    requires
        digits.len() <= places,
    ensures
        low_value(digits, base, places) == value(digits, base),
    decreases places,
{
    if places > digits.len() {
        lemma_low_value_is_value(digits, base, places - 1);
        assert(0 * power(base, places - 1) == 0) by (nonlinear_arith);
    } else if places > 0 {
        let rest = digits.drop_last();
        assert(rest.push(digits.last()) =~= digits);
        lemma_value_push(rest, base, digits.last());
        lemma_low_value_is_value(rest, base, places - 1);
        lemma_low_value_same(digits, rest, base, places - 1);
    }
}

/// Only the lowest digits count.
proof fn lemma_low_value_same(one: Seq<u64>, other: Seq<u64>, base: int, places: int)
    requires
        forall|i: int| 0 <= i < places ==> digit_at(one, i) == digit_at(other, i),
    ensures
        low_value(one, base, places) == low_value(other, base, places),
    decreases places,
{
    if places > 0 {
        lemma_low_value_same(one, other, base, places - 1);
    }
}

/// Digits that stand above others count as many times the base as there are
/// others.
pub proof fn law_higher_digits_count_more(low: Seq<u64>, high: Seq<u64>, base: int)
    ensures
        value(low + high, base) == value(low, base) + power(base, low.len() as int) * value(
            high,
            base,
        ),
        value(Seq::<u64>::empty(), base) == 0,
    decreases low.len(),
{
    let v = value(high, base);
    if low.len() == 0 {
        assert(low + high =~= high);
        vstd::arithmetic::power::lemma_pow0(base);
        assert(1 * v == v);
    } else {
        let rest = low.drop_first();
        let p = power(base, rest.len() as int);
        assert((low + high).drop_first() =~= rest + high);
        law_higher_digits_count_more(rest, high, base);
        lemma_power_step(base, rest.len() as int);
        assert(base * (value(rest, base) + p * v) == base * value(rest, base) + (base * p) * v)
            by (nonlinear_arith);
    }
}

} // verus!
