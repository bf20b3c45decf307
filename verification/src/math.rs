//! Approximate comparison of measured values.

use vstd::prelude::*;

verus! {

/// Equality up to a relative tolerance.
pub trait ApproxEq: Sized {
    /// The type the tolerance is given in.
    type Ratio;

    /// The tolerance used when none is given.
    const DEFAULT_RATIO: Self::Ratio;

    /// Whether `self` and `other` differ by less than `ratio` (or the default
    /// ratio) relative to the larger of the two.
    fn approx_eq(&self, other: Self, ratio: Option<Self::Ratio>) -> bool;
}

} // verus!
