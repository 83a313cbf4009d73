//! World coordinates: integer tile coordinates and continuous positions.
//!
//! Rows grow upward and columns grow rightward.

use vstd::prelude::*;

verus! {

use crate::fixed::{Fixed, FIXED_SCALE};

/// An integer tile dimension.
pub type Dim = i64;

/// An integer tile coordinate.
#[derive(Clone, Copy, PartialEq, Eq, Structural, Debug, Hash)]
pub struct Coord {
    pub row: Dim,
    pub col: Dim,
}

impl Coord {
    pub fn new(row: Dim, col: Dim) -> (r: Coord)
        ensures
            r.row == row,
            r.col == col,
    {
        Coord { row, col }
    }

    /// Componentwise sum.
    pub fn add(self, rhs: Coord) -> (r: Coord)
        requires
            i64::MIN <= self.row + rhs.row <= i64::MAX,
            i64::MIN <= self.col + rhs.col <= i64::MAX,
        ensures
            r.row == self.row + rhs.row,
            r.col == self.col + rhs.col,
    {
        Coord { row: self.row + rhs.row, col: self.col + rhs.col }
    }

    /// The same point as a continuous position.
    pub fn to_real(self) -> (r: CoordReal)
        requires
            -(i64::MAX as int) <= self.row * (FIXED_SCALE as int) <= i64::MAX as int,
            -(i64::MAX as int) <= self.col * (FIXED_SCALE as int) <= i64::MAX as int,
        ensures
            r.row.raw == self.row * (FIXED_SCALE as int),
            r.col.raw == self.col * (FIXED_SCALE as int),
    {
        CoordReal { row: Fixed::from_int(self.row), col: Fixed::from_int(self.col) }
    }
}

impl Default for Coord {
    fn default() -> (r: Coord)
        ensures
            r.row == 0 && r.col == 0,
    {
        Coord { row: 0, col: 0 }
    }
}

/// A continuous world position or velocity.
#[derive(Clone, Copy, PartialEq, Eq, Structural, Debug)]
pub struct CoordReal {
    pub row: Fixed,
    pub col: Fixed,
}

impl CoordReal {
    pub fn zero() -> (r: CoordReal)
        ensures
            r.row.raw == 0 && r.col.raw == 0,
    {
        CoordReal { row: Fixed { raw: 0 }, col: Fixed { raw: 0 } }
    }

    /// Componentwise sum.
    pub fn add(self, rhs: CoordReal) -> (r: CoordReal)
        requires
            i64::MIN <= self.row.raw + rhs.row.raw <= i64::MAX,
            i64::MIN <= self.col.raw + rhs.col.raw <= i64::MAX,
        ensures
            r.row.raw == self.row.raw + rhs.row.raw,
            r.col.raw == self.col.raw + rhs.col.raw,
    {
        CoordReal { row: self.row.add(rhs.row), col: self.col.add(rhs.col) }
    }

    /// Componentwise difference.
    pub fn sub(self, rhs: CoordReal) -> (r: CoordReal)
        requires
            i64::MIN <= self.row.raw - rhs.row.raw <= i64::MAX,
            i64::MIN <= self.col.raw - rhs.col.raw <= i64::MAX,
        ensures
            r.row.raw == self.row.raw - rhs.row.raw,
            r.col.raw == self.col.raw - rhs.col.raw,
    {
        CoordReal { row: self.row.sub(rhs.row), col: self.col.sub(rhs.col) }
    }

    /// Both components scaled by a factor.
    pub fn mul(self, rhs: Fixed) -> (r: CoordReal)
        requires
            self.row.raw > i64::MIN,
            self.col.raw > i64::MIN,
            rhs.raw > i64::MIN,
            -(i64::MAX as int) <= crate::fixed::fixed_mul(self.row.raw as int, rhs.raw as int)
                <= i64::MAX as int,
            -(i64::MAX as int) <= crate::fixed::fixed_mul(self.col.raw as int, rhs.raw as int)
                <= i64::MAX as int,
        ensures
            r.row.raw == crate::fixed::fixed_mul(self.row.raw as int, rhs.raw as int),
            r.col.raw == crate::fixed::fixed_mul(self.col.raw as int, rhs.raw as int),
    {
        CoordReal { row: self.row.mul(rhs), col: self.col.mul(rhs) }
    }
}

impl Default for CoordReal {
    fn default() -> (r: CoordReal)
        ensures
            r.row.raw == 0 && r.col.raw == 0,
    {
        CoordReal { row: Fixed { raw: 0 }, col: Fixed { raw: 0 } }
    }
}

} // verus!
