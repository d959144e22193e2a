use sudoku::grid::{
    cell_at, entry_to_char, get_first_empty_index, grid_to_text, is_safe_placement, set_cell,
};
use sudoku::solver::solution_count;

fn unique_puzzle() -> Vec<Vec<u8>> {
    [
        vec![0, 1, 0, 0, 2, 0, 3, 0, 4],
        vec![0, 0, 2, 0, 0, 5, 6, 1, 0],
        vec![7, 0, 0, 0, 0, 3, 0, 8, 0],
        vec![5, 0, 6, 0, 4, 0, 0, 0, 1],
        vec![0, 0, 1, 0, 0, 0, 2, 0, 0],
        vec![9, 0, 0, 0, 7, 0, 4, 0, 5],
        vec![0, 4, 0, 6, 0, 0, 0, 0, 9],
        vec![0, 6, 7, 2, 0, 0, 5, 0, 0],
        vec![2, 0, 8, 0, 1, 0, 0, 3, 0],
    ]
    .to_vec()
}

fn solved() -> Vec<Vec<u8>> {
    [
        vec![5, 3, 4, 6, 7, 8, 9, 1, 2],
        vec![6, 7, 2, 1, 9, 5, 3, 4, 8],
        vec![1, 9, 8, 3, 4, 2, 5, 6, 7],
        vec![8, 5, 9, 7, 6, 1, 4, 2, 3],
        vec![4, 2, 6, 8, 5, 3, 7, 9, 1],
        vec![7, 1, 3, 9, 2, 4, 8, 5, 6],
        vec![9, 6, 1, 5, 3, 7, 2, 8, 4],
        vec![2, 8, 7, 4, 1, 9, 6, 3, 5],
        vec![3, 4, 5, 2, 8, 6, 1, 7, 9],
    ]
    .to_vec()
}

#[test]
fn test_single_solution_grid() {
    // Known sudoku grid to have a unique solution
    let grid: Vec<Vec<u8>> = [
        vec![0, 1, 0, 0, 2, 0, 3, 0, 4],
        vec![0, 0, 2, 0, 0, 5, 6, 1, 0],
        vec![7, 0, 0, 0, 0, 3, 0, 8, 0],
        vec![5, 0, 6, 0, 4, 0, 0, 0, 1],
        vec![0, 0, 1, 0, 0, 0, 2, 0, 0],
        vec![9, 0, 0, 0, 7, 0, 4, 0, 5],
        vec![0, 4, 0, 6, 0, 0, 0, 0, 9],
        vec![0, 6, 7, 2, 0, 0, 5, 0, 0],
        vec![2, 0, 8, 0, 1, 0, 0, 3, 0],
    ]
    .to_vec();

    assert_eq!(solution_count(grid), 1);
}

#[test]
fn test_many_solutions_grid() {
    // Proved to have 5 solutions by 3rd party validators
    let grid: Vec<Vec<u8>> = [
        vec![0, 0, 0, 0, 2, 0, 3, 0, 4],
        vec![0, 0, 2, 0, 0, 5, 6, 1, 0],
        vec![7, 0, 0, 0, 0, 3, 0, 8, 0],
        vec![5, 0, 6, 0, 0, 0, 0, 0, 1],
        vec![0, 0, 1, 0, 0, 0, 2, 0, 0],
        vec![9, 0, 0, 0, 7, 0, 4, 0, 5],
        vec![0, 4, 0, 0, 0, 0, 0, 0, 9],
        vec![0, 6, 7, 0, 0, 0, 5, 0, 0],
        vec![2, 0, 8, 0, 1, 0, 0, 0, 0],
    ]
    .to_vec();

    assert_eq!(solution_count(grid), 5);
}

#[test]
fn full_grid_counts_once() {
    assert_eq!(solution_count(solved()), 1);
}

#[test]
fn contradictory_grid_counts_zero() {
    // The empty cell at (0, 0) sees every digit: 1..=8 in its row, 9 in its column.
    let mut grid = vec![vec![0u8; 9]; 9];
    for c in 1..9 {
        grid[0][c] = c as u8;
    }
    grid[1][0] = 9;
    assert_eq!(solution_count(grid), 0);
}

#[test]
fn one_missing_cell_is_forced() {
    let mut grid = solved();
    grid[4][4] = 0;
    assert_eq!(solution_count(grid), 1);
}

#[test]
fn crossed_rectangle_gives_two_completions() {
    // Two rows of one band that hold the same two digits crossed in two columns of different
    // stacks: with these four cells empty both fillings are legal.
    let mut grid = solved();
    let mut found = None;
    'outer: for r1 in 0..9 {
        for r2 in (r1 + 1)..9 {
            if r1 / 3 != r2 / 3 {
                continue;
            }
            for c1 in 0..9 {
                for c2 in (c1 + 1)..9 {
                    if c1 / 3 != c2 / 3
                        && grid[r1][c1] == grid[r2][c2]
                        && grid[r1][c2] == grid[r2][c1]
                    {
                        found = Some((r1, r2, c1, c2));
                        break 'outer;
                    }
                }
            }
        }
    }
    let (r1, r2, c1, c2) = found.expect("the grid holds a crossed rectangle");
    grid[r1][c1] = 0;
    grid[r1][c2] = 0;
    grid[r2][c1] = 0;
    grid[r2][c2] = 0;
    assert_eq!(solution_count(grid), 2);
}

#[test]
fn grid_text_is_laid_out_in_boxes() {
    let text = grid_to_text(&solved());
    let expected = "\
5 3 4  6 7 8  9 1 2  \n\
6 7 2  1 9 5  3 4 8  \n\
1 9 8  3 4 2  5 6 7  \n\
\n\
8 5 9  7 6 1  4 2 3  \n\
4 2 6  8 5 3  7 9 1  \n\
7 1 3  9 2 4  8 5 6  \n\
\n\
9 6 1  5 3 7  2 8 4  \n\
2 8 7  4 1 9  6 3 5  \n\
3 4 5  2 8 6  1 7 9  \n\
\n";
    assert_eq!(text, expected);
    let empty = grid_to_text(&vec![vec![0u8; 9]; 9]);
    assert_eq!(empty.lines().next(), Some("0 0 0  0 0 0  0 0 0  "));
    for v in 0..=9u8 {
        assert_eq!(entry_to_char(v), (b'0' + v) as char);
    }
}

#[test]
fn cells_are_read_and_written() {
    let mut grid = unique_puzzle();
    assert_eq!(cell_at(&grid, 0, 1), 1);
    assert_eq!(cell_at(&grid, 2, 0), 7);
    assert_eq!(cell_at(&grid, 8, 8), 0);
    set_cell(&mut grid, 8, 8, 6);
    set_cell(&mut grid, 0, 1, 0);
    assert_eq!(cell_at(&grid, 8, 8), 6);
    assert_eq!(cell_at(&grid, 0, 1), 0);
    let mut expected = unique_puzzle();
    expected[8][8] = 6;
    expected[0][1] = 0;
    assert_eq!(grid, expected);
}

#[test]
fn first_empty_index_is_row_major() {
    let grid = unique_puzzle();
    assert_eq!(get_first_empty_index(&grid), Some((0, 0)));
    let mut grid = solved();
    assert_eq!(get_first_empty_index(&grid), None);
    grid[7][3] = 0;
    grid[8][0] = 0;
    assert_eq!(get_first_empty_index(&grid), Some((7, 3)));
    grid[2][8] = 0;
    assert_eq!(get_first_empty_index(&grid), Some((2, 8)));
}

#[test]
fn safe_placement_checks_row_column_and_box() {
    let grid = unique_puzzle();
    // (0, 0): row holds 1 2 3 4, column holds 7 5 9 2, box holds 1 2 7.
    assert!(!is_safe_placement(&grid, 0, 0, 1));
    assert!(!is_safe_placement(&grid, 0, 0, 2));
    assert!(!is_safe_placement(&grid, 0, 0, 3));
    assert!(!is_safe_placement(&grid, 0, 0, 4));
    assert!(!is_safe_placement(&grid, 0, 0, 5));
    assert!(is_safe_placement(&grid, 0, 0, 6));
    assert!(!is_safe_placement(&grid, 0, 0, 7));
    assert!(is_safe_placement(&grid, 0, 0, 8));
    assert!(!is_safe_placement(&grid, 0, 0, 9));
    // (4, 4): only the box holds 7 and 4, only the row holds 1 and 2.
    assert!(!is_safe_placement(&grid, 4, 4, 7));
    assert!(!is_safe_placement(&grid, 4, 4, 4));
    assert!(!is_safe_placement(&grid, 4, 4, 1));
    assert!(is_safe_placement(&grid, 4, 4, 3));
}

#[test]
fn safe_placement_matches_occurrence_everywhere() {
    let grid = unique_puzzle();
    for r in 0..9usize {
        for c in 0..9usize {
            for v in 1..=9u8 {
                let mut occurs = false;
                for k in 0..9usize {
                    occurs |= grid[r][k] == v;
                    occurs |= grid[k][c] == v;
                    occurs |= grid[3 * (r / 3) + k / 3][3 * (c / 3) + k % 3] == v;
                }
                assert_eq!(is_safe_placement(&grid, r, c, v), !occurs);
            }
        }
    }
}

#[test]
fn safe_placement_ignores_duplicates_of_other_digits() {
    // Row 0 holds 5 twice; 6 still occurs nowhere around (0, 8).
    let mut grid = vec![vec![0u8; 9]; 9];
    grid[0][0] = 5;
    grid[0][1] = 5;
    assert!(is_safe_placement(&grid, 0, 8, 6));
    assert!(!is_safe_placement(&grid, 0, 8, 5));
}

#[test]
fn safe_placement_is_repeatable() {
    let grid = unique_puzzle();
    for v in 1..=9u8 {
        let first = is_safe_placement(&grid, 3, 4, v);
        let second = is_safe_placement(&grid, 3, 4, v);
        assert_eq!(first, second);
    }
}
