//! Exhaustive solution counting: the uniqueness oracle of the masker.

use vstd::prelude::*;
use crate::completion::{
    completions, completions_below, empty_positions, is_valid, lemma_completions_below_bounds,
    lemma_completions_below_step, lemma_fill_removes_empty, lemma_full_grid_completions,
    lemma_safe_digit_completions, lemma_unsafe_digit_excluded, lemma_with_cell_restore,
};
use crate::grid::{
    cells, get_first_empty_index, in_bounds, is_safe_placement, set_cell, well_formed,
};

use crate::units::{lemma_completions_are_solutions, solutions_of};

verus! {

/// A count as a machine word holds it: exact while it fits, the largest word
/// otherwise.
pub open spec fn saturated(n: nat) -> nat {
    if n <= usize::MAX {
        n
    } else {
        usize::MAX as nat
    }
}

/// Counts the completions of `grid`: for a grid that satisfies the validity
/// invariant, the solutions that keep its digits.
///
/// The count is exact; only a count that no machine word can hold is reported
/// as the largest word.
pub fn solution_count(grid: Vec<Vec<u8>>) -> (count: usize)
    requires
        well_formed(cells(grid@)),
    ensures
        completions(cells(grid@)).finite(),
        count as nat == saturated(completions(cells(grid@)).len()),
        is_valid(cells(grid@)) ==> count as nat == saturated(solutions_of(cells(grid@)).len()),
{
    proof {
        if is_valid(cells(grid@)) {
            lemma_completions_are_solutions(cells(grid@));
        }
    }
    let mut work = grid;
    count_in_place(&mut work)
}

/// Counts the completions of `grid` by backtracking over its empty cells in
/// row-major order, and hands the grid back as it was.
pub fn count_in_place(grid: &mut Vec<Vec<u8>>) -> (count: usize)
    requires
        well_formed(cells(old(grid)@)),
    ensures
        cells(final(grid)@) == cells(old(grid)@),
        completions(cells(old(grid)@)).finite(),
        count as nat == saturated(completions(cells(old(grid)@)).len()),
    decreases empty_positions(cells(old(grid)@)).len(),
{
    let ghost g = cells(grid@);
    match get_first_empty_index(grid.as_slice()) {
        None => {
            proof {
                lemma_full_grid_completions(g);
            }
            1
        },
        Some((row, col)) => {
            let mut total: usize = 0;
            let mut digit: u8 = 1;
            proof {
                lemma_completions_below_bounds(g, row as int, col as int);
            }
            while digit <= 9
                invariant
                    1 <= digit <= 10,
                    g == cells(old(grid)@),
                    cells(grid@) == g,
                    well_formed(g),
                    in_bounds(row as int, col as int),
                    g[row as int][col as int] == 0,
                    completions_below(g, row as int, col as int, digit as int).finite(),
                    total as nat == saturated(
                        completions_below(g, row as int, col as int, digit as int).len(),
                    ),
                decreases 10 - digit,
            {
                if is_safe_placement(grid.as_slice(), row, col, digit) {
                    set_cell(grid, row, col, digit);
                    proof {
                        lemma_fill_removes_empty(g, row as int, col as int, digit);
                        lemma_safe_digit_completions(g, row as int, col as int, digit);
                    }
                    let found = count_in_place(grid);
                    set_cell(grid, row, col, 0);
                    proof {
                        lemma_with_cell_restore(g, row as int, col as int, digit);
                    }
                    total = if found > usize::MAX - total {
                        usize::MAX
                    } else {
                        total + found
                    };
                } else {
                    proof {
                        lemma_unsafe_digit_excluded(g, row as int, col as int, digit);
                    }
                }
                proof {
                    lemma_completions_below_step(g, row as int, col as int, digit);
                }
                digit += 1;
            }
            total
        },
    }
}

} // verus!
