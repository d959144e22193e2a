//! Where things go on the canvas: the lines of the grid, the corners of the
//! cells, and the anchors of digits and candidates, all in whole pixels.

use vstd::prelude::*;

verus! {

/// The side of the square canvas, in pixels.
pub const SIZE: usize = 600;

/// The margin between the edge of the canvas and the grid.
pub const PADDING: usize = 3;

/// The height of a digit.
pub const FONT_SIZE: usize = 50;

/// The height of a candidate.
pub const CANDIDATE_SIZE: usize = 15;

/// The margin between the edge of a cell and its candidates.
pub const CANDIDATE_PADDING: usize = 2;

/// How far below the middle of its cell a digit is anchored.
pub const DIGIT_DROP: usize = 4;

/// How far the candidates are moved down within their cell.
pub const CANDIDATE_DROP: usize = 3;

/// The measures of a grid drawn with square cells of one size.
#[derive(Clone, Copy, Debug)]
pub struct GridLayout {
    /// The side of a cell, in pixels.
    pub cell_size: usize,
}

impl GridLayout {
    /// Cells of a positive size whose grid fits on the canvas.
    pub open spec fn fits(self) -> bool {
        0 < self.cell_size && PADDING + 9 * self.cell_size + 1 <= SIZE
    }

    /// The top and the left of the cell at `(row, col)`.
    pub open spec fn corner(self, row: int, col: int) -> (int, int) {
        (PADDING + row * self.cell_size, PADDING + col * self.cell_size)
    }

    /// The distance between neighbouring candidate anchors is a third of
    /// the cell without its margins; this is half of it.
    pub open spec fn candidate_step(self) -> int {
        (self.cell_size - 2 * CANDIDATE_PADDING) / 6
    }

    /// The layout with the largest cells that fit nine times between the
    /// margins of the canvas.
    pub fn new() -> (layout: Self)
        ensures
            layout.cell_size == (SIZE - 2 * PADDING) / 9,
            layout.fits(),
    {
        GridLayout { cell_size: (SIZE - 2 * PADDING) / 9 }
    }

    /// The top and the left of the cell at `(row, col)`.
    pub fn get_cell_pos(&self, row: usize, col: usize) -> (pos: (usize, usize))
        requires
            self.fits(),
            row < 9,
            col < 9,
        ensures
            (pos.0 as int, pos.1 as int) == self.corner(row as int, col as int),
            pos.0 + self.cell_size < SIZE,
            pos.1 + self.cell_size < SIZE,
    {
        assert(row * self.cell_size <= 8 * self.cell_size) by (nonlinear_arith)
            requires
                row <= 8,
                self.cell_size >= 0,
        ;
        assert(col * self.cell_size <= 8 * self.cell_size) by (nonlinear_arith)
            requires
                col <= 8,
                self.cell_size >= 0,
        ;
        (PADDING + row * self.cell_size, PADDING + col * self.cell_size)
    }

    /// Where the digit of the cell at `(row, col)` is anchored, as `(x, y)`:
    /// the middle of the cell, a little lowered.
    pub fn digit_anchor(&self, row: usize, col: usize) -> (anchor: (usize, usize))
        requires
            self.fits(),
            row < 9,
            col < 9,
        ensures
            anchor.0 == self.corner(row as int, col as int).1 + self.cell_size / 2,
            anchor.1 == self.corner(row as int, col as int).0 + DIGIT_DROP + self.cell_size / 2,
    {
        let (top, left) = self.get_cell_pos(row, col);
        (left + self.cell_size / 2, top + DIGIT_DROP + self.cell_size / 2)
    }

    /// Where candidate `n + 1` of the cell at `(row, col)` is anchored, as
    /// `(x, y)`: the candidates stand in three rows of three.
    pub fn candidate_anchor(&self, row: usize, col: usize, n: usize) -> (anchor: (usize, usize))
        requires
            self.fits(),
            self.cell_size >= 2 * CANDIDATE_PADDING,
            row < 9,
            col < 9,
            n < 9,
        ensures
            anchor.0 == self.corner(row as int, col as int).1 + CANDIDATE_PADDING + (2 * (n % 3) + 1)
                * self.candidate_step(),
            anchor.1 == self.corner(row as int, col as int).0 + CANDIDATE_PADDING + CANDIDATE_DROP
                + (2 * (n / 3) + 1) * self.candidate_step(),
    {
        let (top, left) = self.get_cell_pos(row, col);
        let step: usize = (self.cell_size - 2 * CANDIDATE_PADDING) / 6;
        assert((2 * (n % 3) + 1) * step <= 5 * step) by (nonlinear_arith)
            requires
                n % 3 <= 2,
                step >= 0,
        ;
        assert((2 * (n / 3) + 1) * step <= 5 * step) by (nonlinear_arith)
            requires
                n / 3 <= 2,
                step >= 0,
        ;
        let x_offset: usize = CANDIDATE_PADDING + (2 * (n % 3) + 1) * step;
        let y_offset: usize = CANDIDATE_PADDING + CANDIDATE_DROP + (2 * (n / 3) + 1) * step;
        (left + x_offset, top + y_offset)
    }

    /// Where the lines of the grid end: one pixel past the last cell.
    pub fn line_end(&self) -> (end: usize)
        requires
            self.fits(),
        ensures
            end == self.cell_size * 9 + PADDING + 1,
    {
        self.cell_size * 9 + PADDING + 1
    }

    /// The positions of the lines of the grid, horizontal and vertical
    /// alike: one every `cell_size` pixels from the margin on, as far as the
    /// canvas reaches.
    pub fn grid_lines(&self) -> (lines: Vec<usize>)
        requires
            self.fits(),
        ensures
            forall|i: int| 0 <= i < lines@.len() ==> #[trigger] lines@[i] == PADDING + i * self.cell_size,
            forall|i: int| 0 <= i < lines@.len() ==> #[trigger] lines@[i] < SIZE,
            PADDING + lines@.len() * self.cell_size >= SIZE,
            lines@.len() >= 10,
    {
        let mut lines: Vec<usize> = Vec::new();
        let mut at: usize = PADDING;
        assert(lines@.len() * self.cell_size == 0) by (nonlinear_arith)
            requires
                lines@.len() == 0,
        ;
        while at < SIZE
            invariant
                self.fits(),
                at == PADDING + lines@.len() * self.cell_size,
                forall|i: int|
                    0 <= i < lines@.len() ==> #[trigger] lines@[i] == PADDING + i * self.cell_size,
                forall|i: int| 0 <= i < lines@.len() ==> #[trigger] lines@[i] < SIZE,
                lines@.len() < 10 ==> at < SIZE,
            decreases SIZE + self.cell_size - at,
        {
            let ghost count = lines@.len() as int;
            lines.push(at);
            assert((count + 1) * self.cell_size == count * self.cell_size + self.cell_size)
                by (nonlinear_arith);
            assert(lines@.len() < 10 ==> (count + 1) * self.cell_size <= 9 * self.cell_size)
                by (nonlinear_arith)
                requires
                    lines@.len() == count + 1,
                    self.cell_size >= 0,
            ;
            at += self.cell_size;
        }
        lines
    }

    /// Every third line of the grid, counted from the first, borders a box
    /// and is drawn heavy.
    pub fn is_box_line(index: usize) -> (heavy: bool)
        ensures
            heavy == (index % 3 == 0),
    {
        index % 3 == 0
    }
}

} // verus!
