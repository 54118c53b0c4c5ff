//! Amounts of money, as binary64 numbers.

use crate::rounding::INFINITY;
use vstd::prelude::*;

verus! {

/// The sign bit of a binary64 number.
pub const SIGN: u64 = 0x8000_0000_0000_0000;

/// The bits of a number that is not a number.
pub const NOT_A_NUMBER: u64 = 0x7ff8_0000_0000_0000;

/// An amount in dollars: the bits of a binary64 number, the sign in the top
/// bit and the pattern of the number without its sign below. Patterns past
/// that of infinity are not a number. Two amounts compare equal with `==` when
/// their bits are equal.
#[derive(Clone, Copy, Debug, PartialEq, Eq, Structural)]
pub struct Amount {
    pub bits: u64,
}

impl Amount {
    /// The sign bit is set.
    pub open spec fn is_negative(self) -> bool {
        self.bits >= SIGN
    }

    /// The bits without the sign.
    pub open spec fn pattern(self) -> int {
        if self.is_negative() {
            self.bits - SIGN
        } else {
            self.bits as int
        }
    }

    pub open spec fn is_nan(self) -> bool {
        self.pattern() > INFINITY
    }

    pub open spec fn is_infinite(self) -> bool {
        self.pattern() == INFINITY
    }

    pub open spec fn is_finite(self) -> bool {
        self.pattern() < INFINITY
    }

    /// The amount in units of 2^-1074, unless it is not a number. An infinite
    /// amount lies beyond every finite one.
    pub open spec fn units(self) -> int {
        if self.is_negative() {
            -crate::rounding::magnitude(self.pattern())
        } else {
            crate::rounding::magnitude(self.pattern())
        }
    }

    /// The sign bit and the bits below it.
    pub fn split(&self) -> (parts: (bool, u64))
        ensures
            parts.0 == self.is_negative(),
            parts.1 == self.pattern(),
    {
        if self.bits >= SIGN {
            (true, self.bits - SIGN)
        } else {
            (false, self.bits)
        }
    }

    /// The amount with the given sign and pattern.
    pub fn join(negative: bool, pattern: u64) -> (amount: Amount)
        requires
            pattern < SIGN,
        ensures
            amount.is_negative() == negative,
            amount.pattern() == pattern,
    {
        if negative {
            Amount { bits: pattern + SIGN }
        } else {
            Amount { bits: pattern }
        }
    }
}

/// Bits are read as those of binary64 numbers are: the top bit is the sign, and
/// what is below it is a number up to the pattern of infinity and none past it.
pub proof fn law_bits_are_a_sign_and_a_number(amount: Amount)
    ensures
        amount.is_negative() <==> amount.bits >= 0x8000_0000_0000_0000,
        amount.pattern() == amount.bits as int % 0x8000_0000_0000_0000,
        amount.is_finite() <==> amount.bits as int % 0x8000_0000_0000_0000 < 0x7ff0_0000_0000_0000,
        amount.is_infinite() <==> amount.bits as int % 0x8000_0000_0000_0000
            == 0x7ff0_0000_0000_0000,
        amount.is_nan() <==> amount.bits as int % 0x8000_0000_0000_0000 > 0x7ff0_0000_0000_0000,
        amount.bits < 0x8000_0000_0000_0000 ==> amount.units() == crate::rounding::magnitude(
            amount.bits as int,
        ),
        amount.bits >= 0x8000_0000_0000_0000 ==> amount.units() == -crate::rounding::magnitude(
            amount.bits - 0x8000_0000_0000_0000,
        ),
{
}

/// An amount that is split and joined again is the same to the bit.
pub proof fn law_split_amounts_are_joined_again(amount: Amount, parts: (bool, u64), joined: Amount)
    requires
        call_ensures(Amount::split, (&amount,), parts),
        call_ensures(Amount::join, parts, joined),
    ensures
        joined == amount,
{
}

} // verus!
