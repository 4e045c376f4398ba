//! Rasterisation: the field is sampled at the four corners of every cell
//! against a threshold, and a cell is drawn when the contour of the field
//! passes through it.
use vstd::prelude::*;
use crate::ball::{is_below, Motion};
use crate::ballset::{field_at, BallSet};
use crate::config::Config;

verus! {

/// The corner-visibility record of one cell: for each corner, whether the
/// field there is below the threshold.
#[derive(Clone, Copy, Debug, PartialEq, Eq)]
pub struct Grid {
    pub top_left: bool,
    pub top_right: bool,
    pub bottom_left: bool,
    pub bottom_right: bool,
}

/// 1 for `true`, 0 for `false`.
pub open spec fn unit(b: bool) -> int {
    if b {
        1
    } else {
        0
    }
}

impl Grid {
    /// How many of the four corners are below the threshold.
    pub open spec fn count(self) -> int {
        unit(self.top_left) + unit(self.top_right) + unit(self.bottom_left) + unit(
            self.bottom_right,
        )
    }

    /// The contour passes through the cell: some corner is below the
    /// threshold, and not all four are.
    pub open spec fn on_contour(self) -> bool {
        1 <= self.count() <= 3
    }

    /// The record of a cell of which no corner is below the threshold.
    pub fn blank() -> (cell: Grid)
        ensures
            cell == (Grid {
                top_left: false,
                top_right: false,
                bottom_left: false,
                bottom_right: false,
            }),
    {
        Grid { top_left: false, top_right: false, bottom_left: false, bottom_right: false }
    }

    /// The draw rule: a cell is drawn when one, two or three of its corners
    /// are below the threshold, and left blank when none or all four are.
    pub fn drawn(&self) -> (r: bool)
        ensures
            r == self.on_contour(),
            r == ((self.top_left || self.top_right || self.bottom_left || self.bottom_right) && !(
            self.top_left && self.top_right && self.bottom_left && self.bottom_right)),
    {
        (self.top_left || self.top_right || self.bottom_left || self.bottom_right) && !(
        self.top_left && self.top_right && self.bottom_left && self.bottom_right)
    }
}

/// The field at the grid point `(px, py)` is below the threshold.
pub open spec fn visible(balls: Seq<Motion>, px: int, py: int, threshold: int) -> bool {
    is_below(field_at(balls, px, py), threshold)
}

/// The record of the cell `(x, y)`: its corners are the grid points
/// `(x, y + 1)`, `(x + 1, y + 1)`, `(x, y)` and `(x + 1, y)`.
pub open spec fn corners(balls: Seq<Motion>, x: int, y: int, threshold: int) -> Grid {
    Grid {
        top_left: visible(balls, x, y + 1, threshold),
        top_right: visible(balls, x + 1, y + 1, threshold),
        bottom_left: visible(balls, x, y, threshold),
        bottom_right: visible(balls, x + 1, y, threshold),
    }
}

/// The glyph of a cell: the fill glyph on the contour, a space elsewhere.
pub open spec fn glyph(fill: char, cell: Grid) -> char {
    if cell.on_contour() {
        fill
    } else {
        ' '
    }
}

/// The records of all cells, row by row.
pub open spec fn pattern(config: Config, balls: Seq<Motion>, threshold: int) -> Seq<Seq<Grid>> {
    Seq::new(
        config.height as nat,
        |y: int| Seq::new(config.width as nat, |x: int| corners(balls, x, y, threshold)),
    )
}

/// The glyphs of one frame, row by row, each row from left to right.
pub open spec fn frame(config: Config, balls: Seq<Motion>, threshold: int) -> Seq<Seq<char>> {
    Seq::new(
        config.height as nat,
        |y: int|
            Seq::new(
                config.width as nat,
                |x: int| glyph(config.fill_char, corners(balls, x, y, threshold)),
            ),
    )
}

/// A buffer for the grid of `config` in which every record is blank.
pub open spec fn blank_cells(config: Config) -> Seq<Seq<Grid>> {
    Seq::new(
        config.height as nat,
        |y: int|
            Seq::new(
                config.width as nat,
                |x: int|
                    Grid {
                        top_left: false,
                        top_right: false,
                        bottom_left: false,
                        bottom_right: false,
                    },
            ),
    )
}

/// The contents of a buffer of records, row by row.
pub open spec fn cells(grids: Vec<Vec<Grid>>) -> Seq<Seq<Grid>> {
    Seq::new(grids@.len(), |y: int| grids@[y]@)
}

/// The contents of the rows of a frame.
pub open spec fn glyphs(rows: Vec<Vec<char>>) -> Seq<Seq<char>> {
    Seq::new(rows@.len(), |y: int| rows@[y]@)
}

/// The buffer has one row for each row of the grid, and each row one record
/// for each column.
pub open spec fn shaped(grids: Seq<Seq<Grid>>, config: Config) -> bool {
    &&& grids.len() == config.height
    &&& forall|y: int| 0 <= y < grids.len() ==> (#[trigger] grids[y]).len() == config.width
}

/// Samples the field at the four corners of the cell `(x, y)`.
pub fn sample(balls: &BallSet, x: u16, y: u16, threshold: u64) -> (cell: Grid)
    requires
        balls.wf(),
    ensures
        cell == corners(balls@, x as int, y as int, threshold as int),
{
    let left: i32 = x as i32;
    let bottom: i32 = y as i32;
    Grid {
        top_left: balls.borders_val(left, bottom + 1).below(threshold),
        top_right: balls.borders_val(left + 1, bottom + 1).below(threshold),
        bottom_left: balls.borders_val(left, bottom).below(threshold),
        bottom_right: balls.borders_val(left + 1, bottom).below(threshold),
    }
}

/// Allocates the buffer of records for the grid of `config`, every record
/// blank.
pub fn new_grids(config: &Config) -> (grids: Vec<Vec<Grid>>)
    ensures
        cells(grids) == blank_cells(*config),
        shaped(cells(grids), *config),
{
    let mut grids: Vec<Vec<Grid>> = Vec::new();
    let mut y: u16 = 0;
    while y < config.height
        invariant
            y <= config.height,
            grids@.len() == y,
            forall|j: int| 0 <= j < y ==> (#[trigger] grids@[j])@.len() == config.width,
            forall|j: int, i: int|
                0 <= j < y && 0 <= i < config.width ==> #[trigger] grids@[j]@[i] == (Grid {
                    top_left: false,
                    top_right: false,
                    bottom_left: false,
                    bottom_right: false,
                }),
        decreases config.height - y,
    {
        let mut row: Vec<Grid> = Vec::new();
        let mut x: u16 = 0;
        while x < config.width
            invariant
                x <= config.width,
                row@.len() == x,
                forall|i: int|
                    0 <= i < x ==> #[trigger] row@[i] == (Grid {
                        top_left: false,
                        top_right: false,
                        bottom_left: false,
                        bottom_right: false,
                    }),
            decreases config.width - x,
        {
            row.push(Grid::blank());
            x += 1;
        }
        grids.push(row);
        y += 1;
    }
    assert forall|j: int| 0 <= j < cells(grids).len() implies #[trigger] cells(grids)[j]
        =~= blank_cells(*config)[j] by {
        assert(grids@[j]@.len() == config.width);
    }
    assert(cells(grids) =~= blank_cells(*config));
    grids
}

/// Renders one frame. Every cell of the grid is sampled; its record is
/// written to the buffer, which is overwritten as a whole, and its glyph to
/// the row that is returned for it. The balls are only read.
pub fn update(config: &Config, grids: &mut Vec<Vec<Grid>>, balls: &BallSet, threshold: u64) -> (rows:
    Vec<Vec<char>>)
    requires
        balls.wf(),
        shaped(cells(*old(grids)), *config),
    ensures
        cells(*final(grids)) == pattern(*config, balls@, threshold as int),
        glyphs(rows) == frame(*config, balls@, threshold as int),
{
    let mut rows: Vec<Vec<char>> = Vec::new();
    let mut y: u16 = 0;
    assert forall|j: int| 0 <= j < grids@.len() implies (#[trigger] grids@[j])@.len()
        == config.width by {
        assert(cells(*grids)[j].len() == config.width);
    }
    while y < config.height
        invariant
            y <= config.height,
            balls.wf(),
            rows@.len() == y,
            grids@.len() == config.height,
            forall|j: int| 0 <= j < grids@.len() ==> (#[trigger] grids@[j])@.len() == config.width,
            forall|j: int|
                0 <= j < y ==> (#[trigger] rows@[j])@ == frame(
                    *config,
                    balls@,
                    threshold as int,
                )[j],
            forall|j: int|
                0 <= j < y ==> (#[trigger] grids@[j])@ == pattern(
                    *config,
                    balls@,
                    threshold as int,
                )[j],
        decreases config.height - y,
    {
        let mut row: Vec<char> = Vec::new();
        let mut x: u16 = 0;
        while x < config.width
            invariant
                x <= config.width,
                y < config.height,
                balls.wf(),
                row@.len() == x,
                grids@.len() == config.height,
                forall|j: int|
                    0 <= j < grids@.len() ==> (#[trigger] grids@[j])@.len() == config.width,
                forall|j: int|
                    0 <= j < y ==> (#[trigger] grids@[j])@ == pattern(
                        *config,
                        balls@,
                        threshold as int,
                    )[j],
                forall|i: int|
                    0 <= i < x ==> #[trigger] row@[i] == glyph(
                        config.fill_char,
                        corners(balls@, i, y as int, threshold as int),
                    ),
                forall|i: int|
                    0 <= i < x ==> #[trigger] grids@[y as int]@[i] == corners(
                        balls@,
                        i,
                        y as int,
                        threshold as int,
                    ),
            decreases config.width - x,
        {
            let current: Grid = sample(balls, x, y, threshold);
            grids[y as usize][x as usize] = current;
            if current.drawn() {
                row.push(config.fill_char);
            } else {
                row.push(' ');
            }
            x += 1;
        }
        assert(row@ =~= frame(*config, balls@, threshold as int)[y as int]);
        assert(grids@[y as int]@ =~= pattern(*config, balls@, threshold as int)[y as int]);
        rows.push(row);
        y += 1;
    }
    assert(glyphs(rows) =~= frame(*config, balls@, threshold as int));
    assert(cells(*grids) =~= pattern(*config, balls@, threshold as int));
    rows
}

/// The draw rule over the sixteen corner patterns: a cell is drawn exactly
/// when the number of corners below the threshold is 1, 2 or 3.
pub proof fn lemma_draw_rule(cell: Grid)
    ensures
        0 <= cell.count() <= 4,
        cell.on_contour() <==> (cell.count() == 1 || cell.count() == 2 || cell.count() == 3),
        cell.count() == 0 <==> !(cell.top_left || cell.top_right || cell.bottom_left
            || cell.bottom_right),
        cell.count() == 4 <==> (cell.top_left && cell.top_right && cell.bottom_left
            && cell.bottom_right),
{
}

} // verus!
