use vstd::prelude::*;

verus! {

/// Fixed-point scale: a coordinate on the complex plane is stored as the
/// integer `value * SCALE`, so one plane unit is `SCALE` (2^32) ticks.
pub const SCALE: i64 = 4294967296;

/// Largest coordinate magnitude the library works with: 2^48 ticks,
/// i.e. 65536 plane units away from the origin in either axis.
/// Every arithmetic bound in the library is proved from this limit.
pub const MAX_COORD: i64 = 281474976710656;

/// A point on the complex plane in fixed-point representation:
/// the point `re / SCALE + (im / SCALE) i`.
#[derive(Clone, Copy, PartialEq, Eq, Structural, Debug)]
pub struct Complex {
    pub re: i64,
    pub im: i64,
}

impl Complex {
    /// Both coordinates within the magnitude limit the library supports.
    pub open spec fn in_range(self) -> bool {
        -MAX_COORD <= self.re <= MAX_COORD && -MAX_COORD <= self.im <= MAX_COORD
    }
}

} // verus!
