//! How the library holds numbers that are not integers.
//!
//! A quotient is held as its two integers. A score that has been computed is
//! held as a key: the bit pattern of a non-negative, finite binary64 number,
//! read as an unsigned integer. Among such numbers a larger number has a
//! larger key, so the library compares keys where it has to compare scores.

use vstd::prelude::*;

verus! {

/// The key of the number one.
pub const SCORE_ONE: u64 = 0x3FF0_0000_0000_0000;

/// The key of the least score with which a match is reported, six tenths.
pub const ENTITY_SCORE_THRESHOLD: u64 = 0x3FE3_3333_3333_3333;

/// A quotient of two counts, numerator over denominator.
#[derive(Clone, Copy, Debug, PartialEq, Eq)]
pub struct Ratio {
    pub num: usize,
    pub den: usize,
}

/// A quotient of two natural numbers.
pub struct Fraction {
    pub num: nat,
    pub den: nat,
}

impl View for Ratio {
    type V = Fraction;

    open spec fn view(&self) -> Fraction {
        Fraction { num: self.num as nat, den: self.den as nat }
    }
}

impl Fraction {
    /// The quotient is defined and is one.
    pub open spec fn is_one(self) -> bool {
        self.den > 0 && self.num == self.den
    }

    /// The quotient is defined and lies between zero and one.
    pub open spec fn is_unit(self) -> bool {
        self.den > 0 && self.num <= self.den
    }
}

impl Ratio {
    /// Whether the quotient is defined and is one.
    pub fn is_one(&self) -> (r: bool)
        ensures
            r == self@.is_one(),
    {
        self.den > 0 && self.num == self.den
    }
}

} // verus!
