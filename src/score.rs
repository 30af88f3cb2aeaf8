use vstd::prelude::*;

verus! {

/// An exact non-negative rational number `num / den`.
#[derive(Clone, Copy, Debug, PartialEq, Eq, Structural)]
pub struct Fraction {
    pub num: u128,
    pub den: u128,
}

impl Fraction {
    /// Whether this fraction is exactly one (and well defined).
    pub open spec fn is_one(self) -> bool {
        self.den > 0 && self.num == self.den
    }

    /// Whether this fraction is exactly zero (and well defined).
    pub open spec fn is_zero(self) -> bool {
        self.den > 0 && self.num == 0
    }
}

/// Why a metric could not be computed.
#[derive(Clone, Copy, Debug, PartialEq, Eq, Structural)]
pub enum MetricError {
    /// An n-gram order of zero was asked for.
    InvalidArgument,
}

} // verus!
