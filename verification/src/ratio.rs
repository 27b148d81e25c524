//! Exact quotients of machine integers.

use vstd::prelude::*;

verus! {

/// The quotient `numerator / denominator`, kept exact and unreduced.
///
/// Nothing is divided here: a caller that wants a rounded value divides the two
/// fields itself.
#[derive(Clone, Copy, Debug, PartialEq, Eq, Structural)]
pub struct Ratio {
    pub numerator: i64,
    pub denominator: i64,
}

impl Ratio {
    /// `self <= other` as rational numbers, for positive denominators.
    pub open spec fn le(self, other: Ratio) -> bool
        recommends
            self.denominator > 0,
            other.denominator > 0,
    {
        self.numerator * other.denominator <= other.numerator * self.denominator
    }

    /// The quotient with the opposite sign.
    pub open spec fn negated(self) -> Ratio
        recommends
            self.numerator > i64::MIN,
    {
        Ratio { numerator: (-self.numerator) as i64, denominator: self.denominator }
    }

    /// Whether the quotient lies in the closed interval from -1 to 1.
    pub open spec fn in_unit_interval(self) -> bool {
        self.denominator > 0 && -self.denominator <= self.numerator <= self.denominator
    }
}

} // verus!
