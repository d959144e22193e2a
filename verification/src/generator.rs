//! The random filled-grid generator: three independently shuffled diagonal
//! boxes, then a randomized depth-first search over the remaining cells.

use rand::rngs::ThreadRng;
use vstd::prelude::*;
use crate::completion::{
    are_peers, completions, completions_with, empty_positions, is_completion, is_solution,
    is_valid, lemma_fill_removes_empty, lemma_safe_digit_completions,
    lemma_unsafe_digit_excluded, lemma_with_cell_restore,
};
use crate::grid::{
    cells, get_first_empty_index, in_bounds, is_safe_placement, set_cell, well_formed,
};
use crate::random::{shuffle, thread_rng};
use crate::units::{
    each_digit_once, is_digit_permutation, lemma_completions_of_valid,
    lemma_permutation_holds_every_digit, lemma_solution_holds_each_digit_once, occurs_once,
    ordered_digits,
};

verus! {

/// Whatever order a shuffle leaves the digits `1..=9` in, they are still nine
/// different digits.
pub proof fn lemma_shuffled_digits_are_permutation(s: Seq<u8>)
    requires
        s.to_multiset() == ordered_digits().to_multiset(),
    ensures
        is_digit_permutation(s),
{
    let o = ordered_digits();
    s.to_multiset_ensures();
    o.to_multiset_ensures();
    assert(o.no_duplicates());
    o.lemma_multiset_has_no_duplicates();
    s.lemma_multiset_has_no_duplicates_conv();
    assert forall|i: int| 0 <= i < 9 implies 1 <= #[trigger] s[i] <= 9 by {
        assert(s.contains(s[i]));
        assert(s.to_multiset().count(s[i]) > 0);
        assert(o.to_multiset().count(s[i]) > 0);
        assert(o.contains(s[i]));
        let j = choose|j: int| 0 <= j < o.len() && o[j] == s[i];
        assert(1 <= o[j] <= 9);
    }
}

/// Draws the digits `1..=9` in a random order.
pub fn shuffled_digits(rng: &mut ThreadRng) -> (digits: [u8; 9])
    ensures
        is_digit_permutation(digits@),
{
    let mut digits: [u8; 9] = [1, 2, 3, 4, 5, 6, 7, 8, 9];
    assert(digits@ =~= ordered_digits());
    shuffle(&mut digits, rng);
    proof {
        lemma_shuffled_digits_are_permutation(digits@);
    }
    digits
}

/// The grid whose three diagonal boxes hold `first`, `second` and `third` in
/// row-major order, and whose other cells are empty.
pub open spec fn diagonal_seed(first: Seq<u8>, second: Seq<u8>, third: Seq<u8>) -> Seq<Seq<u8>> {
    Seq::new(
        9,
        |r: int|
            Seq::new(
                9,
                |c: int|
                    if r / 3 != c / 3 {
                        0u8
                    } else if r / 3 == 0 {
                        first[3 * (r % 3) + c % 3]
                    } else if r / 3 == 1 {
                        second[3 * (r % 3) + c % 3]
                    } else {
                        third[3 * (r % 3) + c % 3]
                    },
            ),
    )
}

/// The diagonal boxes share no row, column or box, so a grid seeded with
/// three permutations satisfies the validity invariant.
pub proof fn lemma_diagonal_seed_is_valid(first: Seq<u8>, second: Seq<u8>, third: Seq<u8>)
    requires
        is_digit_permutation(first),
        is_digit_permutation(second),
        is_digit_permutation(third),
    ensures
        well_formed(diagonal_seed(first, second, third)),
        is_valid(diagonal_seed(first, second, third)),
{
    let g = diagonal_seed(first, second, third);
    assert forall|r1: int, c1: int, r2: int, c2: int|
        in_bounds(r1, c1) && in_bounds(r2, c2) && are_peers(r1, c1, r2, c2) && g[r1][c1]
            != 0 implies #[trigger] g[r1][c1] != #[trigger] g[r2][c2] by {
        if g[r2][c2] != 0 {
            let i = 3 * (r1 % 3) + c1 % 3;
            let j = 3 * (r2 % 3) + c2 % 3;
            assert(r1 / 3 == c1 / 3 && r2 / 3 == c2 / 3 && r1 / 3 == r2 / 3);
            assert(i != j);
            if r1 / 3 == 0 {
                assert(first[i] != first[j]);
            } else if r1 / 3 == 1 {
                assert(second[i] != second[j]);
            } else {
                assert(third[i] != third[j]);
            }
        }
    }
}

/// Builds the grid whose diagonal boxes hold the three given permutations.
pub fn seed_diagonal(first: &[u8; 9], second: &[u8; 9], third: &[u8; 9]) -> (grid: Vec<Vec<u8>>)
    requires
        is_digit_permutation(first@),
        is_digit_permutation(second@),
        is_digit_permutation(third@),
    ensures
        cells(grid@) == diagonal_seed(first@, second@, third@),
        well_formed(cells(grid@)),
        is_valid(cells(grid@)),
{
    let ghost seed = diagonal_seed(first@, second@, third@);
    let mut grid: Vec<Vec<u8>> = Vec::new();
    let mut r: usize = 0;
    while r < 9
        invariant
            r <= 9,
            grid@.len() == r,
            seed == diagonal_seed(first@, second@, third@),
            forall|k: int| 0 <= k < r ==> (#[trigger] grid@[k])@ == seed[k],
        decreases 9 - r,
    {
        let mut row: Vec<u8> = Vec::new();
        let mut c: usize = 0;
        while c < 9
            invariant
                r < 9,
                c <= 9,
                row@.len() == c,
                seed == diagonal_seed(first@, second@, third@),
                forall|k: int| 0 <= k < c ==> #[trigger] row@[k] == seed[r as int][k],
            decreases 9 - c,
        {
            let at: usize = 3 * (r % 3) + c % 3;
            let entry: u8 = if r / 3 != c / 3 {
                0
            } else if r / 3 == 0 {
                first[at]
            } else if r / 3 == 1 {
                second[at]
            } else {
                third[at]
            };
            row.push(entry);
            c += 1;
        }
        assert(row@ =~= seed[r as int]);
        grid.push(row);
        r += 1;
    }
    proof {
        assert(cells(grid@) =~= seed);
        lemma_diagonal_seed_is_valid(first@, second@, third@);
    }
    grid
}

/// Fills the empty cells of `grid` in row-major order, trying the digits of
/// each cell in a random order and backtracking where none fits.
///
/// On `true` the grid has become one of its completions; on `false` it has
/// none and is handed back as it was.
pub fn fill_in_place(grid: &mut Vec<Vec<u8>>, rng: &mut ThreadRng) -> (done: bool)
    requires
        well_formed(cells(old(grid)@)),
    ensures
        well_formed(cells(final(grid)@)),
        done ==> is_completion(cells(old(grid)@), cells(final(grid)@)),
        !done ==> cells(final(grid)@) == cells(old(grid)@),
        !done ==> completions(cells(old(grid)@)) == Set::<Seq<Seq<u8>>>::empty(),
    decreases empty_positions(cells(old(grid)@)).len(),
{
    let ghost g = cells(grid@);
    match get_first_empty_index(grid.as_slice()) {
        None => {
            assert(is_completion(g, g));
            true
        },
        Some((row, col)) => {
            let digits = shuffled_digits(rng);
            let mut i: usize = 0;
            while i < 9
                invariant
                    i <= 9,
                    g == cells(old(grid)@),
                    cells(grid@) == g,
                    well_formed(g),
                    in_bounds(row as int, col as int),
                    g[row as int][col as int] == 0,
                    is_digit_permutation(digits@),
                    forall|k: int|
                        0 <= k < i ==> #[trigger] completions_with(
                            g,
                            row as int,
                            col as int,
                            digits@[k],
                        ) == Set::<Seq<Seq<u8>>>::empty(),
                decreases 9 - i,
            {
                let digit = digits[i];
                if is_safe_placement(grid.as_slice(), row, col, digit) {
                    set_cell(grid, row, col, digit);
                    proof {
                        lemma_fill_removes_empty(g, row as int, col as int, digit);
                        lemma_safe_digit_completions(g, row as int, col as int, digit);
                    }
                    let ghost placed = cells(grid@);
                    if fill_in_place(grid, rng) {
                        assert(completions(placed).contains(cells(grid@)));
                        assert(completions_with(g, row as int, col as int, digit).contains(
                            cells(grid@),
                        ));
                        return true;
                    }
                    set_cell(grid, row, col, 0);
                    proof {
                        lemma_with_cell_restore(g, row as int, col as int, digit);
                    }
                } else {
                    proof {
                        lemma_unsafe_digit_excluded(g, row as int, col as int, digit);
                    }
                }
                i += 1;
            }
            proof {
                assert forall|f: Seq<Seq<u8>>| !completions(g).contains(f) by {
                    if is_completion(g, f) {
                        let d = f[row as int][col as int];
                        assert(1 <= d <= 9);
                        lemma_permutation_holds_every_digit(digits@);
                        assert(occurs_once(digits@, d));
                        let k = choose|k: int| 0 <= k < 9 && digits@[k] == d;
                        assert(completions_with(g, row as int, col as int, digits@[k]).contains(f));
                    }
                }
                assert(completions(g) =~= Set::<Seq<Seq<u8>>>::empty());
            }
            false
        },
    }
}

/// Searches for a completion of `grid`.
///
/// Returns a completion whenever the grid has one, and `None` exactly when it
/// has none. Which completion is found depends on the random source.
pub fn fill_grid(grid: Vec<Vec<u8>>, rng: &mut ThreadRng) -> (filled: Option<Vec<Vec<u8>>>)
    requires
        well_formed(cells(grid@)),
    ensures
        match filled {
            Some(f) => is_completion(cells(grid@), cells(f@)),
            None => completions(cells(grid@)) == Set::<Seq<Seq<u8>>>::empty(),
        },
{
    let mut work = grid;
    if fill_in_place(&mut work, rng) {
        Some(work)
    } else {
        None
    }
}

/// Some seeding of the diagonal boxes with three permutations has no
/// completion.
pub open spec fn some_seed_is_unfillable() -> bool {
    exists|first: Seq<u8>, second: Seq<u8>, third: Seq<u8>|
        is_digit_permutation(first) && is_digit_permutation(second) && is_digit_permutation(third)
            && #[trigger] completions(diagonal_seed(first, second, third)) == Set::<
            Seq<Seq<u8>>,
        >::empty()
}

/// Creates a complete Sudoku solution at random.
///
/// The three diagonal boxes are seeded with independent random permutations
/// of the digits and the rest is found by search. Every grid returned is a
/// solution; `None` is returned only if the search has shown that the seeded
/// grid has no completion.
pub fn generate_random_filled_grid() -> (filled: Option<Vec<Vec<u8>>>)
    ensures
        match filled {
            Some(f) => is_solution(cells(f@)) && each_digit_once(cells(f@)),
            None => some_seed_is_unfillable(),
        },
{
    let mut rng = thread_rng();
    let first = shuffled_digits(&mut rng);
    let second = shuffled_digits(&mut rng);
    let third = shuffled_digits(&mut rng);
    let seed = seed_diagonal(&first, &second, &third);
    let ghost seeded = cells(seed@);
    let filled = fill_grid(seed, &mut rng);
    proof {
        if filled is Some {
            lemma_completions_of_valid(seeded, cells(filled->0@));
            lemma_solution_holds_each_digit_once(cells(filled->0@));
        } else {
            assert(completions(diagonal_seed(first@, second@, third@)) == Set::<
                Seq<Seq<u8>>,
            >::empty());
        }
    }
    filled
}

} // verus!
