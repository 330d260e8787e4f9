//! Canonical simulation units: integer ticks and fixed-point quantities.

use vstd::prelude::*;

verus! {

/// A canonical integer simulation tick.
#[derive(Debug, Clone, Copy, PartialEq, Eq, Structural, PartialOrd, Ord, Hash, Default)]
pub struct Tick(pub u64);

impl Tick {
    /// The tick before any command has been applied.
    pub fn start() -> (r: Tick)
        ensures
            r.0 == 0,
    {
        Tick(0)
    }

    /// The next tick.
    pub fn next(self) -> (r: Tick)
        requires
            self.0 < u64::MAX,
        ensures
            r.0 == self.0 + 1,
    {
        Tick(self.0 + 1)
    }
}


/// Gross greenhouse-gas emissions in milli-GtCO2e/year.
#[derive(Debug, Clone, Copy, PartialEq, Eq, Structural, PartialOrd, Ord, Default)]
pub struct MilliGt(pub i64);

impl MilliGt {
    /// Global gross emissions of zero: the victory value for this quantity.
    pub fn zero() -> (r: MilliGt)
        ensures
            r.0 == 0,
    {
        MilliGt(0)
    }
}

/// Abstract global CFA finance units.
#[derive(Debug, Clone, Copy, PartialEq, Eq, Structural, PartialOrd, Ord, Default)]
pub struct Finance(pub i64);

/// Abstract global mandate points.
#[derive(Debug, Clone, Copy, PartialEq, Eq, Structural, PartialOrd, Ord, Default)]
pub struct Mandate(pub i64);

} // verus!
