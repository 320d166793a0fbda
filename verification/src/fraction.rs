//! Exact fractions of two counts.

use vstd::prelude::*;

verus! {

/// The fraction `numer / denom`; `denom` is never zero in a fraction that
/// this library hands out.
#[derive(Clone, Copy, Debug, PartialEq, Eq, Structural)]
pub struct Fraction {
    pub numer: usize,
    pub denom: usize,
}

impl Fraction {
    /// The share that `part` has in `whole`, and zero where `whole` is zero.
    pub open spec fn share(part: usize, whole: usize) -> Fraction {
        if whole == 0 {
            Fraction { numer: 0, denom: 1 }
        } else {
            Fraction { numer: part, denom: whole }
        }
    }

    /// The fraction is at most one.
    pub open spec fn within_unit(self) -> bool {
        self.denom > 0 && self.numer <= self.denom
    }

    /// `self` is strictly greater than `other`; both denominators are positive.
    pub open spec fn greater_than(self, other: Fraction) -> bool {
        self.numer * other.denom > other.numer * self.denom
    }

    /// The share that `part` has in `whole`, and zero where `whole` is zero.
    pub fn of_counts(part: usize, whole: usize) -> (r: Fraction)
        ensures
            r == Fraction::share(part, whole),
            r.denom > 0,
    {
        if whole == 0 {
            Fraction { numer: 0, denom: 1 }
        } else {
            Fraction { numer: part, denom: whole }
        }
    }

    /// Whether `self` is strictly greater than `other`.
    pub fn exceeds(&self, other: &Fraction) -> (r: bool)
        ensures
            r == self.greater_than(*other),
    {
        proof {
            assert(self.numer * other.denom <= usize::MAX * usize::MAX) by (nonlinear_arith)
                requires
                    0 <= self.numer <= usize::MAX,
                    0 <= other.denom <= usize::MAX,
            ;
            assert(other.numer * self.denom <= usize::MAX * usize::MAX) by (nonlinear_arith)
                requires
                    0 <= other.numer <= usize::MAX,
                    0 <= self.denom <= usize::MAX,
            ;
            assert(usize::MAX * usize::MAX <= u128::MAX) by (nonlinear_arith)
                requires
                    usize::MAX <= 0xFFFF_FFFF_FFFF_FFFF,
            ;
        }
        (self.numer as u128) * (other.denom as u128) > (other.numer as u128) * (self.denom as u128)
    }
}

} // verus!
