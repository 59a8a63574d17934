//! Coordinates in the complex plane, as the library carries them.
//!
//! The library stores coordinates and hands them on unchanged; it never does
//! arithmetic with them. A coordinate is therefore kept as the bit pattern of
//! its IEEE 754 binary64 encoding, which makes "the same number" mean "the
//! same 64 bits".

use vstd::prelude::*;

verus! {

/// One real number of the complex plane, as the 64 bits of its IEEE 754
/// binary64 encoding.
#[derive(Clone, Copy, Debug, PartialEq, Eq, Structural)]
pub struct Coord {
    pub bits: u64,
}

/// A point of the complex plane.
#[derive(Clone, Copy, Debug, PartialEq, Eq, Structural)]
pub struct Point {
    pub re: Coord,
    pub im: Coord,
}

impl Coord {
    /// The number zero (positive zero is the all-clear bit pattern).
    pub open spec fn zero() -> Coord {
        Coord { bits: 0 }
    }
}

impl Point {
    /// The origin `0 + 0i`.
    pub open spec fn origin() -> Point {
        Point { re: Coord::zero(), im: Coord::zero() }
    }
}

} // verus!
