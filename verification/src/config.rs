//! The configuration of one run: the size of the character grid, the glyph,
//! and the ranges from which the balls are drawn.
use vstd::prelude::*;
use crate::fixed::{ONE, REACH};

verus! {

/// What stays fixed for a whole run.
///
/// Lengths and speeds are 16.16 fixed-point numbers of grid cells; `width` and
/// `height` are whole cells.
#[derive(Clone, Copy, Debug, PartialEq, Eq)]
pub struct Config {
    /// Columns of the character grid.
    pub width: u16,
    /// Rows of the character grid.
    pub height: u16,
    /// The glyph of a cell on the contour.
    pub fill_char: char,
    /// How many balls are spawned.
    pub n_of_balls: u8,
    /// The least and the greatest radius of a spawned ball.
    pub ball_radius: (i64, i64),
    /// The least and the greatest velocity component of a spawned ball; either
    /// may be negative.
    pub ball_speed: (i64, i64),
}

impl Config {
    /// The grid is not empty, both ranges are non-empty intervals, radii are
    /// positive, and every end of a range is within `REACH`.
    pub open spec fn wf(self) -> bool {
        &&& self.width > 0
        &&& self.height > 0
        &&& 0 < self.ball_radius.0 <= self.ball_radius.1 <= REACH
        &&& -REACH <= self.ball_speed.0 <= self.ball_speed.1 <= REACH
    }

    /// The position of the right wall, in fixed-point units.
    pub open spec fn right(self) -> int {
        self.width as int * ONE as int
    }

    /// The position of the top wall, in fixed-point units.
    pub open spec fn top(self) -> int {
        self.height as int * ONE as int
    }

    /// Tells whether the configuration is well formed.
    pub fn is_valid(&self) -> (r: bool)
        ensures
            r == self.wf(),
    {
        self.width > 0 && self.height > 0 && 0 < self.ball_radius.0 && self.ball_radius.0
            <= self.ball_radius.1 && self.ball_radius.1 <= REACH && -REACH <= self.ball_speed.0
            && self.ball_speed.0 <= self.ball_speed.1 && self.ball_speed.1 <= REACH
    }
}

} // verus!
