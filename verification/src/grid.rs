//! The 9×9 grid, its mathematical model, and the two leaf operations every
//! search in this crate is built from: finding the first empty cell and
//! deciding whether a digit may be placed in a cell.

use vstd::prelude::*;

verus! {

/// The mathematical content of a grid held as rows of bytes.
pub open spec fn cells(grid: Seq<Vec<u8>>) -> Seq<Seq<u8>> {
    Seq::new(grid.len(), |r: int| grid[r]@)
}

/// `(r, c)` names a cell of the board.
pub open spec fn in_bounds(r: int, c: int) -> bool {
    0 <= r < 9 && 0 <= c < 9
}

/// A grid is nine rows of nine entries, each entry `0` (empty) or a digit `1..=9`.
pub open spec fn well_formed(g: Seq<Seq<u8>>) -> bool {
    &&& g.len() == 9
    &&& forall|r: int| 0 <= r < 9 ==> (#[trigger] g[r]).len() == 9
    &&& forall|r: int, c: int| in_bounds(r, c) ==> #[trigger] g[r][c] <= 9
}

/// The grid `g` with the entry at `(r, c)` replaced by `v`.
pub open spec fn with_cell(g: Seq<Seq<u8>>, r: int, c: int, v: u8) -> Seq<Seq<u8>> {
    g.update(r, g[r].update(c, v))
}

/// `v` is the entry of some cell of row `r`.
pub open spec fn occurs_in_row(g: Seq<Seq<u8>>, r: int, v: u8) -> bool {
    exists|c: int| 0 <= c < 9 && #[trigger] g[r][c] == v
}

/// `v` is the entry of some cell of column `c`.
pub open spec fn occurs_in_col(g: Seq<Seq<u8>>, c: int, v: u8) -> bool {
    exists|r: int| 0 <= r < 9 && #[trigger] g[r][c] == v
}

/// `v` is the entry of some cell of the 3×3 box that contains `(r, c)`.
pub open spec fn occurs_in_box(g: Seq<Seq<u8>>, r: int, c: int, v: u8) -> bool {
    exists|r2: int, c2: int|
        in_bounds(r2, c2) && r2 / 3 == r / 3 && c2 / 3 == c / 3 && #[trigger] g[r2][c2] == v
}

/// Digit `v` may be placed at `(r, c)`: it occurs nowhere in the row, the
/// column or the box of that cell.
pub open spec fn is_safe(g: Seq<Seq<u8>>, r: int, c: int, v: u8) -> bool {
    &&& !occurs_in_row(g, r, v)
    &&& !occurs_in_col(g, c, v)
    &&& !occurs_in_box(g, r, c, v)
}

/// Reads the entry at `(row, col)`.
pub fn cell_at(grid: &[Vec<u8>], row: usize, col: usize) -> (v: u8)
    requires
        well_formed(cells(grid@)),
        row < 9,
        col < 9,
    ensures
        v == cells(grid@)[row as int][col as int],
        v <= 9,
{
    assert(cells(grid@)[row as int] == grid@[row as int]@);
    grid[row][col]
}

/// Decides whether `val` may be placed at `(row, col)`.
///
/// The answer is `false` exactly when `val` already occurs in the row, the
/// column or the box of the cell.
pub fn is_safe_placement(grid: &[Vec<u8>], row: usize, col: usize, val: u8) -> (safe: bool)
    requires
        well_formed(cells(grid@)),
        row < 9,
        col < 9,
        1 <= val <= 9,
    ensures
        safe == is_safe(cells(grid@), row as int, col as int, val),
{
    let ghost g = cells(grid@);
    let mut k: usize = 0;
    while k < 9
        invariant
            k <= 9,
            row < 9,
            g == cells(grid@),
            well_formed(g),
            forall|c: int| 0 <= c < k ==> #[trigger] g[row as int][c] != val,
        decreases 9 - k,
    {
        if cell_at(grid, row, k) == val {
            return false;
        }
        k += 1;
    }
    let mut k: usize = 0;
    while k < 9
        invariant
            k <= 9,
            col < 9,
            g == cells(grid@),
            well_formed(g),
            !occurs_in_row(g, row as int, val),
            forall|r: int| 0 <= r < k ==> #[trigger] g[r][col as int] != val,
        decreases 9 - k,
    {
        if cell_at(grid, k, col) == val {
            return false;
        }
        k += 1;
    }
    let top: usize = 3 * (row / 3);
    let left: usize = 3 * (col / 3);
    let mut i: usize = 0;
    while i < 3
        invariant
            i <= 3,
            row < 9,
            col < 9,
            top == 3 * (row / 3),
            left == 3 * (col / 3),
            g == cells(grid@),
            well_formed(g),
            !occurs_in_row(g, row as int, val),
            !occurs_in_col(g, col as int, val),
            forall|r2: int, c2: int|
                top <= r2 < top + i && left <= c2 < left + 3 ==> #[trigger] g[r2][c2] != val,
        decreases 3 - i,
    {
        let mut j: usize = 0;
        while j < 3
            invariant
                i < 3,
                j <= 3,
                row < 9,
                col < 9,
                top == 3 * (row / 3),
                left == 3 * (col / 3),
                g == cells(grid@),
                well_formed(g),
                !occurs_in_row(g, row as int, val),
                !occurs_in_col(g, col as int, val),
                forall|r2: int, c2: int|
                    top <= r2 < top + i && left <= c2 < left + 3 ==> #[trigger] g[r2][c2] != val,
                forall|c2: int| left <= c2 < left + j ==> #[trigger] g[top + i][c2] != val,
            decreases 3 - j,
        {
            if cell_at(grid, top + i, left + j) == val {
                return false;
            }
            j += 1;
        }
        i += 1;
    }
    true
}

/// The verdict on a placement depends on nothing but the entries of the
/// cell's row, column and box: two grids that agree there get the same
/// verdict. In particular, asking again about a grid that has not changed
/// gives the same answer.
pub proof fn lemma_is_safe_depends_on_units(
    g1: Seq<Seq<u8>>,
    g2: Seq<Seq<u8>>,
    r: int,
    c: int,
    v: u8,
)
    requires
        in_bounds(r, c),
        forall|r2: int, c2: int|
            in_bounds(r2, c2) && (r2 == r || c2 == c || (r2 / 3 == r / 3 && c2 / 3 == c / 3))
                ==> #[trigger] g1[r2][c2] == g2[r2][c2],
    ensures
        is_safe(g1, r, c, v) == is_safe(g2, r, c, v),
{
    lemma_occurrence_carries_over(g1, g2, r, c, v);
    lemma_occurrence_carries_over(g2, g1, r, c, v);
}

/// A digit that occurs around a cell in one grid occurs around it in every
/// grid that agrees with the first on the cell's row, column and box.
proof fn lemma_occurrence_carries_over(g1: Seq<Seq<u8>>, g2: Seq<Seq<u8>>, r: int, c: int, v: u8)
    requires
        in_bounds(r, c),
        forall|r2: int, c2: int|
            in_bounds(r2, c2) && (r2 == r || c2 == c || (r2 / 3 == r / 3 && c2 / 3 == c / 3))
                ==> #[trigger] g1[r2][c2] == g2[r2][c2],
    ensures
        occurs_in_row(g1, r, v) ==> occurs_in_row(g2, r, v),
        occurs_in_col(g1, c, v) ==> occurs_in_col(g2, c, v),
        occurs_in_box(g1, r, c, v) ==> occurs_in_box(g2, r, c, v),
{
    if occurs_in_row(g1, r, v) {
        let c2 = choose|c2: int| 0 <= c2 < 9 && #[trigger] g1[r][c2] == v;
        assert(in_bounds(r, c2));
        assert(g2[r][c2] == v);
    }
    if occurs_in_col(g1, c, v) {
        let r2 = choose|r2: int| 0 <= r2 < 9 && #[trigger] g1[r2][c] == v;
        assert(in_bounds(r2, c));
        assert(g2[r2][c] == v);
    }
    if occurs_in_box(g1, r, c, v) {
        let (r2, c2) = choose|r2: int, c2: int|
            in_bounds(r2, c2) && r2 / 3 == r / 3 && c2 / 3 == c / 3 && #[trigger] g1[r2][c2] == v;
        assert(g2[r2][c2] == v);
    }
}

/// Every cell holds a digit.
pub open spec fn is_full(g: Seq<Seq<u8>>) -> bool {
    forall|r: int, c: int| in_bounds(r, c) ==> #[trigger] g[r][c] != 0
}

/// `(r, c)` is the first empty cell in row-major order.
pub open spec fn is_first_empty(g: Seq<Seq<u8>>, r: int, c: int) -> bool {
    &&& in_bounds(r, c)
    &&& g[r][c] == 0
    &&& forall|r2: int, c2: int|
        in_bounds(r2, c2) && 9 * r2 + c2 < 9 * r + c ==> #[trigger] g[r2][c2] != 0
}

/// Finds the first empty cell in row-major order, or reports that the grid
/// is full.
pub fn get_first_empty_index(grid: &[Vec<u8>]) -> (found: Option<(usize, usize)>)
    requires
        well_formed(cells(grid@)),
    ensures
        match found {
            Some((r, c)) => is_first_empty(cells(grid@), r as int, c as int),
            None => is_full(cells(grid@)),
        },
{
    let ghost g = cells(grid@);
    let mut flat: usize = 0;
    while flat < 81
        invariant
            flat <= 81,
            g == cells(grid@),
            well_formed(g),
            forall|r2: int, c2: int|
                in_bounds(r2, c2) && 9 * r2 + c2 < flat ==> #[trigger] g[r2][c2] != 0,
        decreases 81 - flat,
    {
        let row: usize = flat / 9;
        let col: usize = flat % 9;
        if cell_at(grid, row, col) == 0 {
            return Some((row, col));
        }
        flat += 1;
    }
    None
}

/// Writes `val` at `(row, col)` and leaves every other cell as it was.
pub fn set_cell(grid: &mut Vec<Vec<u8>>, row: usize, col: usize, val: u8)
    requires
        well_formed(cells(old(grid)@)),
        row < 9,
        col < 9,
        val <= 9,
    ensures
        cells(final(grid)@) == with_cell(cells(old(grid)@), row as int, col as int, val),
        well_formed(cells(final(grid)@)),
{
    assert(cells(grid@)[row as int] == grid@[row as int]@);
    grid[row][col] = val;
    assert(cells(grid@) =~= with_cell(cells(old(grid)@), row as int, col as int, val));
}

/// The character that shows an entry: its digit.
pub open spec fn entry_char(v: u8) -> char {
    if v == 0 {
        '0'
    } else if v == 1 {
        '1'
    } else if v == 2 {
        '2'
    } else if v == 3 {
        '3'
    } else if v == 4 {
        '4'
    } else if v == 5 {
        '5'
    } else if v == 6 {
        '6'
    } else if v == 7 {
        '7'
    } else if v == 8 {
        '8'
    } else {
        '9'
    }
}

/// The first `upto` entries of a row as text: every entry is followed by a
/// blank, every third entry by one blank more.
pub open spec fn row_text(row: Seq<u8>, upto: int) -> Seq<char>
    decreases upto,
{
    if upto <= 0 {
        Seq::<char>::empty()
    } else {
        let shown = row_text(row, upto - 1).push(entry_char(row[upto - 1])).push(' ');
        if (upto - 1) % 3 == 2 {
            shown.push(' ')
        } else {
            shown
        }
    }
}

/// The first `upto` rows of a grid as text: every row ends its line, and
/// every third row is followed by an empty line.
pub open spec fn grid_text(g: Seq<Seq<u8>>, upto: int) -> Seq<char>
    decreases upto,
{
    if upto <= 0 {
        Seq::<char>::empty()
    } else {
        let shown = (grid_text(g, upto - 1) + row_text(g[upto - 1], 9)).push('\n');
        if (upto - 1) % 3 == 2 {
            shown.push('\n')
        } else {
            shown
        }
    }
}

/// The character that shows an entry.
pub fn entry_to_char(v: u8) -> (shown: char)
    requires
        v <= 9,
    ensures
        shown == entry_char(v),
{
    if v == 0 {
        '0'
    } else if v == 1 {
        '1'
    } else if v == 2 {
        '2'
    } else if v == 3 {
        '3'
    } else if v == 4 {
        '4'
    } else if v == 5 {
        '5'
    } else if v == 6 {
        '6'
    } else if v == 7 {
        '7'
    } else if v == 8 {
        '8'
    } else {
        '9'
    }
}

/// Lays a grid out as text, box by box: blanks between the entries, a wider
/// gap between the boxes of a row and an empty line between the rows of
/// boxes.
pub fn grid_to_text(grid: &[Vec<u8>]) -> (text: String)
    requires
        well_formed(cells(grid@)),
    ensures
        text@ == grid_text(cells(grid@), 9),
{
    let ghost g = cells(grid@);
    let mut text = String::new();
    let mut r: usize = 0;
    while r < 9
        invariant
            r <= 9,
            g == cells(grid@),
            well_formed(g),
            text@ == grid_text(g, r as int),
        decreases 9 - r,
    {
        let ghost before = text@;
        let mut c: usize = 0;
        while c < 9
            invariant
                r < 9,
                c <= 9,
                g == cells(grid@),
                well_formed(g),
                text@ == before + row_text(g[r as int], c as int),
            decreases 9 - c,
        {
            text.push(entry_to_char(cell_at(grid, r, c)));
            text.push(' ');
            if c % 3 == 2 {
                text.push(' ');
            }
            c += 1;
        }
        text.push('\n');
        if r % 3 == 2 {
            text.push('\n');
        }
        r += 1;
    }
    text
}

} // verus!
