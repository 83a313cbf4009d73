//! The camera: a world-space focus that screen-space consumers project
//! through.

use vstd::prelude::*;

verus! {

use crate::util::{Coord, Dim};

/// The world position the view is centred on.
#[derive(Clone, Copy, PartialEq, Eq, Structural, Debug)]
pub struct Camera {
    pub position: Coord,
}

impl Camera {
    /// Project a world point into screen coordinates for a screen of the
    /// given size: the camera position lands at the screen's centre.
    pub fn project(&self, world_point: Coord, screen_rows: Dim, screen_cols: Dim) -> (r: Coord)
        requires
            0 <= screen_rows <= 0x10000,
            0 <= screen_cols <= 0x10000,
            -0x1000_0000_0000_0000 <= world_point.row <= 0x1000_0000_0000_0000,
            -0x1000_0000_0000_0000 <= world_point.col <= 0x1000_0000_0000_0000,
            -0x1000_0000_0000_0000 <= self.position.row <= 0x1000_0000_0000_0000,
            -0x1000_0000_0000_0000 <= self.position.col <= 0x1000_0000_0000_0000,
        ensures
            r.row == screen_rows / 2 + world_point.row - self.position.row,
            r.col == screen_cols / 2 + world_point.col - self.position.col,
    {
        let half_rows: i64 = ((screen_rows as u64) / 2u64) as i64;
        let half_cols: i64 = ((screen_cols as u64) / 2u64) as i64;
        Coord {
            row: half_rows + world_point.row - self.position.row,
            col: half_cols + world_point.col - self.position.col,
        }
    }
}

} // verus!
