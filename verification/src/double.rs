//! Double-precision numbers, held as their bit patterns.

use vstd::prelude::*;

verus! {

/// A double-precision number, as its IEEE 754 bit pattern.
#[derive(Debug, Clone, Copy, PartialEq, Eq, Structural)]
pub struct Double {
    pub bits: u64,
}

/// The bit pattern of infinity, above which a pattern without its sign stands
/// for no number.
pub const INFINITY_BITS: u64 = 0x7ff0_0000_0000_0000;

/// The weight of the sign bit.
pub const SIGN_BIT: u64 = 0x8000_0000_0000_0000;

impl Double {
    /// The bit pattern without its sign.
    pub open spec fn magnitude(self) -> int {
        if self.bits >= SIGN_BIT {
            self.bits - SIGN_BIT
        } else {
            self.bits as int
        }
    }

    /// The pattern stands for a number, finite or not.
    pub open spec fn is_number(self) -> bool {
        self.magnitude() <= INFINITY_BITS
    }

    /// The place of a number among all numbers. The two zeros share one.
    pub open spec fn rank(self) -> int {
        if self.bits >= SIGN_BIT {
            -self.magnitude()
        } else {
            self.magnitude()
        }
    }

    /// `a < b` on doubles: false where one of them is no number.
    pub open spec fn lt(self, other: Double) -> bool {
        self.is_number() && other.is_number() && self.rank() < other.rank()
    }

    /// Zero.
    pub fn zero() -> (r: Double)
        ensures
            r.bits == 0,
            r.is_number(),
            r.rank() == 0,
    {
        Double { bits: 0 }
    }

    /// Whether the pattern stands for a number.
    pub fn has_value(self) -> (r: bool)
        ensures
            r == self.is_number(),
    {
        if self.bits >= SIGN_BIT {
            self.bits - SIGN_BIT <= INFINITY_BITS
        } else {
            self.bits <= INFINITY_BITS
        }
    }

    /// Whether this number is less than `other`.
    pub fn less(self, other: Double) -> (r: bool)
        ensures
            r == self.lt(other),
    {
        if !self.has_value() || !other.has_value() {
            false
        } else if self.bits >= SIGN_BIT {
            if other.bits >= SIGN_BIT {
                self.bits > other.bits
            } else {
                self.bits > SIGN_BIT || other.bits > 0
            }
        } else {
            other.bits < SIGN_BIT && self.bits < other.bits
        }
    }
}

} // verus!
