//! Exact quotients of two integers, and their fixed-point reading in
//! thousandths.

use vstd::prelude::*;

verus! {

/// The largest magnitude that either part of a well-formed ratio may have.
pub const RATIO_LIMIT: i128 = 0x10_0000_0000_0000_0000_0000_0000;

/// How many fixed-point units make one whole.
pub const MILLI: i128 = 1000;

/// The quotient `num / den` of two integers, kept exact.
#[derive(Clone, Copy, Debug, PartialEq, Eq, Structural)]
pub struct Ratio {
    pub num: i128,
    pub den: i128,
}

/// The ratio that `Ratio::new` makes of `num` and `den`: a quotient whose
/// denominator is not positive counts as zero.
pub open spec fn ratio_of(num: int, den: int) -> Ratio {
    if den <= 0 {
        Ratio { num: 0, den: 1 }
    } else {
        Ratio { num: num as i128, den: den as i128 }
    }
}

/// `part` as a percentage of `whole`; zero where `whole` is not positive.
pub open spec fn percent_of(part: int, whole: int) -> Ratio {
    ratio_of(part * 100, whole)
}

impl Ratio {
    /// A ratio is well formed when its denominator is positive and both
    /// parts are within `RATIO_LIMIT`.
    pub open spec fn wf(self) -> bool {
        &&& 0 < self.den <= RATIO_LIMIT
        &&& -RATIO_LIMIT <= self.num <= RATIO_LIMIT
    }

    /// Whether the ratio stands for a number greater than zero.
    pub open spec fn positive(self) -> bool {
        self.wf() && self.num > 0
    }

    /// Whether two ratios stand for the same number.
    pub open spec fn same_value(self, other: Ratio) -> bool {
        self.num * other.den == other.num * self.den
    }

    /// The ratio in thousandths, rounded down and held to the range of a
    /// `u64`. A ratio that is negative or not well formed reads as zero.
    pub open spec fn spec_milli(self) -> u64 {
        if !self.wf() || self.num <= 0 {
            0
        } else if (self.num * MILLI) / (self.den as int) > u64::MAX {
            u64::MAX
        } else {
            ((self.num * MILLI) / (self.den as int)) as u64
        }
    }

    /// The ratio zero.
    pub fn zero() -> (r: Ratio)
        ensures
            r == ratio_of(0, 0),
            r.wf(),
    {
        Ratio { num: 0, den: 1 }
    }

    /// The quotient `num / den`, or zero where `den` is not positive.
    pub fn new(num: i128, den: i128) -> (r: Ratio)
        ensures
            r == ratio_of(num as int, den as int),
            den <= 0 ==> r.num == 0 && r.den == 1,
            (-RATIO_LIMIT <= num <= RATIO_LIMIT && den <= RATIO_LIMIT) ==> r.wf(),
    {
        if den <= 0 {
            Ratio { num: 0, den: 1 }
        } else {
            Ratio { num, den }
        }
    }

    /// Whether the ratio is well formed.
    pub fn is_wf(&self) -> (b: bool)
        ensures
            b == self.wf(),
    {
        0 < self.den && self.den <= RATIO_LIMIT && -RATIO_LIMIT <= self.num && self.num
            <= RATIO_LIMIT
    }

    /// Whether the ratio is well formed and greater than zero.
    pub fn is_positive(&self) -> (b: bool)
        ensures
            b == self.positive(),
    {
        self.is_wf() && self.num > 0
    }

    /// The ratio in thousandths, rounded down.
    pub fn milli(&self) -> (m: u64)
        ensures
            m == self.spec_milli(),
    {
        if !self.is_wf() || self.num <= 0 {
            return 0;
        }
        let scaled: i128 = self.num * MILLI;
        let q: i128 = scaled / self.den;
        assert(q == (self.num * MILLI) / (self.den as int));
        assert(q >= 0) by (nonlinear_arith)
            requires
                q == scaled / self.den,
                scaled >= 0,
                self.den > 0,
        ;
        if q > 0xFFFF_FFFF_FFFF_FFFF {
            0xFFFF_FFFF_FFFF_FFFF
        } else {
            q as u64
        }
    }
}

} // verus!
