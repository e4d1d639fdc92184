//! Double-precision numbers, held by their IEEE 754 bit pattern.
//!
//! The decisions taken here only compare such numbers. On the non-negative ones the
//! order of the numbers is the order of their bit patterns, so integers suffice.

use vstd::prelude::*;

verus! {

/// The bit pattern of positive infinity, the least one that is not a finite number.
pub const INFINITY_BITS: u64 = 0x7ff0_0000_0000_0000;

/// The bit pattern of two.
pub const TWO_BITS: u64 = 0x4000_0000_0000_0000;

/// The bit pattern of the double nearest to one tenth.
pub const TENTH_BITS: u64 = 0x3fb9_9999_9999_999a;

/// The bit pattern of sixty.
pub const SIXTY_BITS: u64 = 0x404e_0000_0000_0000;

/// The bit pattern of one quarter.
pub const QUARTER_BITS: u64 = 0x3fd0_0000_0000_0000;

/// A double-precision number.
#[derive(Debug, Clone, Copy, PartialEq, Eq, Structural)]
pub struct Double {
    /// Its IEEE 754 bit pattern: sign, exponent, fraction, from the highest bit down.
    pub bits: u64,
}

impl Double {
    /// A finite number above zero: sign bit clear, not zero, exponent below the highest.
    pub open spec fn positive(self) -> bool {
        0 < self.bits < INFINITY_BITS
    }

    /// One tenth or more, positive infinity counted.
    pub open spec fn reaches_tenth(self) -> bool {
        TENTH_BITS <= self.bits <= INFINITY_BITS
    }

    /// True for a finite number above zero.
    pub fn is_positive(self) -> (yes: bool)
        ensures
            yes == self.positive(),
    {
        0 < self.bits && self.bits < INFINITY_BITS
    }

    /// The number itself where it is finite and above zero, `fallback` otherwise.
    pub fn positive_or(self, fallback: Double) -> (d: Double)
        ensures
            d == (if self.positive() {
                self
            } else {
                fallback
            }),
    {
        if self.is_positive() {
            self
        } else {
            fallback
        }
    }

    /// The larger of the number and one tenth; one tenth where the number is not a number.
    pub fn at_least_tenth(self) -> (d: Double)
        ensures
            d == (if self.reaches_tenth() {
                self
            } else {
                (Double { bits: TENTH_BITS })
            }),
    {
        if TENTH_BITS <= self.bits && self.bits <= INFINITY_BITS {
            self
        } else {
            Double { bits: TENTH_BITS }
        }
    }

    /// The number brought into the range from one tenth to sixty.
    pub fn paced(self) -> (d: Double)
        requires
            self.positive(),
        ensures
            d == (if self.bits < TENTH_BITS {
                (Double { bits: TENTH_BITS })
            } else if self.bits > SIXTY_BITS {
                (Double { bits: SIXTY_BITS })
            } else {
                self
            }),
    {
        if self.bits < TENTH_BITS {
            Double { bits: TENTH_BITS }
        } else if self.bits > SIXTY_BITS {
            Double { bits: SIXTY_BITS }
        } else {
            self
        }
    }
}

/// The number that a sign, an exponent and a fraction make is finite and above zero where the
/// sign is clear, the exponent is not the highest, and one of exponent and fraction is not zero.
/// It reaches one tenth where its exponent is above that of one sixteenth, or is the same and the
/// fraction makes up for the rest; with the highest exponent only infinity does.
pub proof fn law_numbers_are_told_by_their_parts(d: Double, sign: int, exponent: int, fraction: int)
    requires
        0 <= sign < 2,
        0 <= exponent < 2048,
        0 <= fraction < 0x10_0000_0000_0000,
        d.bits == sign * 0x8000_0000_0000_0000 + exponent * 0x10_0000_0000_0000 + fraction,
    ensures
        d.positive() <==> sign == 0 && exponent < 2047 && exponent + fraction > 0,
        d.reaches_tenth() <==> sign == 0 && if exponent == 2047 {
            fraction == 0
        } else if exponent == 1019 {
            10 * (0x10_0000_0000_0000 + fraction) >= 0x100_0000_0000_0000
        } else {
            exponent > 1019
        },
{
}

/// Two, one quarter and sixty are what their names say: each is the one number above zero whose
/// exponent and fraction make it. Below one tenth and above sixty lie, of the numbers above zero,
/// those that are smaller and larger.
pub proof fn law_named_numbers(exponent: int, fraction: int)
    requires
        0 <= exponent < 2047,
        0 <= fraction < 0x10_0000_0000_0000,
    ensures
        ({
            let bits = exponent * 0x10_0000_0000_0000 + fraction;
            &&& bits == TWO_BITS <==> exponent - 1023 == 1 && fraction == 0
            &&& bits == QUARTER_BITS <==> exponent - 1023 == -2 && fraction == 0
            &&& bits == SIXTY_BITS <==> exponent - 1023 == 5 && 16 * (0x10_0000_0000_0000
                + fraction) == 30 * 0x10_0000_0000_0000
            &&& bits < TENTH_BITS <==> exponent - 1023 < -4 || (exponent - 1023 == -4 && 10 * (
            0x10_0000_0000_0000 + fraction) < 16 * 0x10_0000_0000_0000)
            &&& bits > SIXTY_BITS <==> exponent - 1023 > 5 || (exponent - 1023 == 5 && 32 * (
            0x10_0000_0000_0000 + fraction) > 60 * 0x10_0000_0000_0000)
        }),
{
}

} // verus!
