//! What it means to complete a grid, and the facts about completions that the
//! searches rely on.

use vstd::prelude::*;
use vstd::set_lib::*;
use crate::grid::{
    in_bounds, is_full, is_safe, occurs_in_box, occurs_in_col, occurs_in_row, well_formed,
    with_cell,
};

verus! {

/// Two cells lie in a common row, column or box.
pub open spec fn same_unit(r1: int, c1: int, r2: int, c2: int) -> bool {
    r1 == r2 || c1 == c2 || (r1 / 3 == r2 / 3 && c1 / 3 == c2 / 3)
}

/// Two different cells that lie in a common row, column or box.
pub open spec fn are_peers(r1: int, c1: int, r2: int, c2: int) -> bool {
    same_unit(r1, c1, r2, c2) && (r1 != r2 || c1 != c2)
}

/// The validity invariant: no digit occurs twice in a row, column or box.
pub open spec fn is_valid(g: Seq<Seq<u8>>) -> bool {
    forall|r1: int, c1: int, r2: int, c2: int|
        in_bounds(r1, c1) && in_bounds(r2, c2) && are_peers(r1, c1, r2, c2) && g[r1][c1] != 0
            ==> #[trigger] g[r1][c1] != #[trigger] g[r2][c2]
}

/// A complete Sudoku solution: a full grid that satisfies the validity
/// invariant.
pub open spec fn is_solution(g: Seq<Seq<u8>>) -> bool {
    well_formed(g) && is_full(g) && is_valid(g)
}

/// `f` keeps every digit that `g` holds.
pub open spec fn extends(f: Seq<Seq<u8>>, g: Seq<Seq<u8>>) -> bool {
    forall|r: int, c: int| in_bounds(r, c) && g[r][c] != 0 ==> #[trigger] f[r][c] == g[r][c]
}

/// Every cell that `g` leaves empty holds in `f` a digit that none of its
/// peers holds.
pub open spec fn fills_legally(f: Seq<Seq<u8>>, g: Seq<Seq<u8>>) -> bool {
    forall|r1: int, c1: int, r2: int, c2: int|
        in_bounds(r1, c1) && in_bounds(r2, c2) && are_peers(r1, c1, r2, c2) && g[r1][c1] == 0
            ==> #[trigger] f[r1][c1] != #[trigger] f[r2][c2]
}

/// `f` is a completion of `g`: a full grid that keeps the digits of `g` and
/// fills its empty cells legally.
pub open spec fn is_completion(g: Seq<Seq<u8>>, f: Seq<Seq<u8>>) -> bool {
    &&& well_formed(f)
    &&& is_full(f)
    &&& extends(f, g)
    &&& fills_legally(f, g)
}

/// All completions of `g`.
pub open spec fn completions(g: Seq<Seq<u8>>) -> Set<Seq<Seq<u8>>> {
    Set::new(|f: Seq<Seq<u8>>| is_completion(g, f))
}

/// The completions of `g` that hold `d` at `(r, c)`.
pub open spec fn completions_with(g: Seq<Seq<u8>>, r: int, c: int, d: u8) -> Set<Seq<Seq<u8>>> {
    Set::new(|f: Seq<Seq<u8>>| is_completion(g, f) && f[r][c] == d)
}

/// The completions of `g` that hold a digit smaller than `d` at `(r, c)`.
pub open spec fn completions_below(g: Seq<Seq<u8>>, r: int, c: int, d: int) -> Set<Seq<Seq<u8>>> {
    Set::new(|f: Seq<Seq<u8>>| is_completion(g, f) && f[r][c] < d)
}

/// The row-major positions `9 * r + c` of the empty cells of `g`.
pub open spec fn empty_positions(g: Seq<Seq<u8>>) -> Set<int> {
    Set::new(|k: int| 0 <= k < 81 && g[k / 9][k % 9] == 0)
}

/// The row-major positions `9 * r + c` of the cells of `g` that hold a digit.
pub open spec fn given_positions(g: Seq<Seq<u8>>) -> Set<int> {
    Set::new(|k: int| 0 <= k < 81 && g[k / 9][k % 9] != 0)
}

/// Replacing one entry changes that entry and nothing else.
pub proof fn lemma_with_cell(g: Seq<Seq<u8>>, r: int, c: int, v: u8)
    requires
        well_formed(g),
        in_bounds(r, c),
        v <= 9,
    ensures
        well_formed(with_cell(g, r, c, v)),
        with_cell(g, r, c, v)[r][c] == v,
        forall|r2: int, c2: int|
            in_bounds(r2, c2) && (r2 != r || c2 != c) ==> #[trigger] with_cell(g, r, c, v)[r2][c2]
                == g[r2][c2],
{
    let h = with_cell(g, r, c, v);
    assert forall|r2: int| 0 <= r2 < 9 implies (#[trigger] h[r2]).len() == 9 by {
        if r2 != r {
            assert(h[r2] == g[r2]);
        }
    }
    assert forall|r2: int, c2: int| in_bounds(r2, c2) implies #[trigger] h[r2][c2] <= 9 && (r2 != r
        || c2 != c ==> h[r2][c2] == g[r2][c2]) by {
        if r2 != r {
            assert(h[r2] == g[r2]);
        }
    }
}

/// Writing back the entry that a cell held undoes a replacement.
pub proof fn lemma_with_cell_restore(g: Seq<Seq<u8>>, r: int, c: int, v: u8)
    requires
        well_formed(g),
        in_bounds(r, c),
    ensures
        with_cell(with_cell(g, r, c, v), r, c, g[r][c]) == g,
{
    let h = with_cell(with_cell(g, r, c, v), r, c, g[r][c]);
    assert(h[r] =~= g[r]);
    assert(h =~= g);
}

/// A grid has at most 81 empty cells.
pub proof fn lemma_empty_positions_finite(g: Seq<Seq<u8>>)
    ensures
        empty_positions(g).finite(),
        empty_positions(g).len() <= 81,
{
    lemma_int_range(0, 81);
    lemma_len_subset(empty_positions(g), set_int_range(0, 81));
}

/// A grid has at most 81 cells that hold a digit.
pub proof fn lemma_given_positions_finite(g: Seq<Seq<u8>>)
    ensures
        given_positions(g).finite(),
        given_positions(g).len() <= 81,
{
    lemma_int_range(0, 81);
    lemma_len_subset(given_positions(g), set_int_range(0, 81));
}

/// Writing a digit into an empty cell leaves one empty cell fewer.
pub proof fn lemma_fill_removes_empty(g: Seq<Seq<u8>>, r: int, c: int, v: u8)
    requires
        well_formed(g),
        in_bounds(r, c),
        g[r][c] == 0,
        1 <= v <= 9,
    ensures
        empty_positions(with_cell(g, r, c, v)) == empty_positions(g).remove(9 * r + c),
        empty_positions(with_cell(g, r, c, v)).len() + 1 == empty_positions(g).len(),
{
    let h = with_cell(g, r, c, v);
    lemma_with_cell(g, r, c, v);
    lemma_empty_positions_finite(g);
    let k0 = 9 * r + c;
    assert(k0 / 9 == r && k0 % 9 == c);
    assert(empty_positions(g).contains(k0));
    assert forall|k: int| empty_positions(h).contains(k) <==> empty_positions(g).remove(
        k0,
    ).contains(k) by {
        if 0 <= k < 81 {
            assert(in_bounds(k / 9, k % 9));
            if k != k0 {
                assert(k / 9 != r || k % 9 != c);
            }
        }
    }
    assert(empty_positions(h) =~= empty_positions(g).remove(k0));
}

/// A full grid has exactly one completion: itself.
pub proof fn lemma_full_grid_completions(g: Seq<Seq<u8>>)
    requires
        well_formed(g),
        is_full(g),
    ensures
        completions(g) == set![g],
{
    assert forall|f: Seq<Seq<u8>>| completions(g).contains(f) <==> set![g].contains(f) by {
        if is_completion(g, f) {
            assert forall|r: int| 0 <= r < 9 implies f[r] == g[r] by {
                assert(f[r].len() == 9 && g[r].len() == 9);
                assert forall|c: int| 0 <= c < 9 implies f[r][c] == g[r][c] by {
                    assert(in_bounds(r, c));
                    assert(g[r][c] != 0);
                }
                assert(f[r] =~= g[r]);
            }
            assert(f =~= g);
        }
        if f == g {
            assert(is_completion(g, g));
        }
    }
    assert(completions(g) =~= set![g]);
}

/// A digit that is not safe at an empty cell occurs there in no completion.
pub proof fn lemma_unsafe_digit_excluded(g: Seq<Seq<u8>>, r: int, c: int, d: u8)
    requires
        well_formed(g),
        in_bounds(r, c),
        g[r][c] == 0,
        1 <= d <= 9,
        !is_safe(g, r, c, d),
    ensures
        completions_with(g, r, c, d) == Set::<Seq<Seq<u8>>>::empty(),
{
    let (r2, c2) = if occurs_in_row(g, r, d) {
        let c2 = choose|c2: int| 0 <= c2 < 9 && #[trigger] g[r][c2] == d;
        (r, c2)
    } else if occurs_in_col(g, c, d) {
        let r2 = choose|r2: int| 0 <= r2 < 9 && #[trigger] g[r2][c] == d;
        (r2, c)
    } else {
        choose|r2: int, c2: int|
            in_bounds(r2, c2) && r2 / 3 == r / 3 && c2 / 3 == c / 3 && #[trigger] g[r2][c2] == d
    };
    assert(in_bounds(r2, c2) && g[r2][c2] == d && are_peers(r, c, r2, c2));
    assert forall|f: Seq<Seq<u8>>| !completions_with(g, r, c, d).contains(f) by {
        if is_completion(g, f) {
            assert(f[r2][c2] == g[r2][c2]);
            assert(f[r][c] != f[r2][c2]);
        }
    }
    assert(completions_with(g, r, c, d) =~= Set::<Seq<Seq<u8>>>::empty());
}

/// A safe digit differs from every digit in the row, column and box of its cell.
pub proof fn lemma_safe_differs_from_unit(g: Seq<Seq<u8>>, r: int, c: int, d: u8)
    requires
        is_safe(g, r, c, d),
    ensures
        forall|r2: int, c2: int|
            in_bounds(r2, c2) && same_unit(r, c, r2, c2) ==> #[trigger] g[r2][c2] != d,
{
    assert forall|r2: int, c2: int| in_bounds(r2, c2) && same_unit(r, c, r2, c2) implies #[trigger] g[r2][c2]
        != d by {
        if g[r2][c2] == d {
            if r2 == r {
                assert(occurs_in_row(g, r, d));
            } else if c2 == c {
                assert(occurs_in_col(g, c, d));
            } else {
                assert(occurs_in_box(g, r, c, d));
            }
        }
    }
}

/// Placing a safe digit in an empty cell keeps exactly those completions that
/// hold this digit there.
pub proof fn lemma_safe_digit_completions(g: Seq<Seq<u8>>, r: int, c: int, d: u8)
    requires
        well_formed(g),
        in_bounds(r, c),
        g[r][c] == 0,
        1 <= d <= 9,
        is_safe(g, r, c, d),
    ensures
        completions(with_cell(g, r, c, d)) == completions_with(g, r, c, d),
{
    let h = with_cell(g, r, c, d);
    lemma_with_cell(g, r, c, d);
    lemma_safe_differs_from_unit(g, r, c, d);
    assert forall|f: Seq<Seq<u8>>| completions(h).contains(f) <==> completions_with(
        g,
        r,
        c,
        d,
    ).contains(f) by {
        if is_completion(h, f) {
            assert(f[r][c] == h[r][c]);
            assert forall|r1: int, c1: int| in_bounds(r1, c1) && g[r1][c1] != 0 implies #[trigger] f[r1][c1]
                == g[r1][c1] by {
                assert(h[r1][c1] == g[r1][c1]);
            }
            assert forall|r1: int, c1: int, r2: int, c2: int|
                in_bounds(r1, c1) && in_bounds(r2, c2) && are_peers(r1, c1, r2, c2) && g[r1][c1]
                    == 0 implies #[trigger] f[r1][c1] != #[trigger] f[r2][c2] by {
                if r1 == r && c1 == c {
                    if g[r2][c2] != 0 {
                        assert(h[r2][c2] == g[r2][c2]);
                        assert(f[r2][c2] == h[r2][c2]);
                    } else {
                        assert(h[r2][c2] == 0);
                        assert(are_peers(r2, c2, r1, c1));
                        assert(f[r2][c2] != f[r1][c1]);
                    }
                } else {
                    assert(h[r1][c1] == 0);
                }
            }
            assert(is_completion(g, f));
        }
        if is_completion(g, f) && f[r][c] == d {
            assert forall|r1: int, c1: int| in_bounds(r1, c1) && h[r1][c1] != 0 implies #[trigger] f[r1][c1]
                == h[r1][c1] by {
                if r1 != r || c1 != c {
                    assert(h[r1][c1] == g[r1][c1]);
                }
            }
            assert forall|r1: int, c1: int, r2: int, c2: int|
                in_bounds(r1, c1) && in_bounds(r2, c2) && are_peers(r1, c1, r2, c2) && h[r1][c1]
                    == 0 implies #[trigger] f[r1][c1] != #[trigger] f[r2][c2] by {
                assert(g[r1][c1] == 0);
            }
            assert(is_completion(h, f));
        }
    }
    assert(completions(h) =~= completions_with(g, r, c, d));
}

/// Splitting the completions by the digit at one cell: those with a digit
/// below `d + 1` are those below `d` together with those that hold `d`.
pub proof fn lemma_completions_below_step(g: Seq<Seq<u8>>, r: int, c: int, d: u8)
    requires
        completions_below(g, r, c, d as int).finite(),
        completions_with(g, r, c, d).finite(),
    ensures
        completions_below(g, r, c, d + 1).finite(),
        completions_below(g, r, c, d + 1).len() == completions_below(g, r, c, d as int).len()
            + completions_with(g, r, c, d).len(),
{
    let below = completions_below(g, r, c, d as int);
    let with = completions_with(g, r, c, d);
    assert(completions_below(g, r, c, d + 1) =~= below + with);
    assert(below.disjoint(with));
    lemma_set_disjoint_lens(below, with);
}

/// No completion holds a digit below 1 anywhere; every completion holds a
/// digit below 10 everywhere.
pub proof fn lemma_completions_below_bounds(g: Seq<Seq<u8>>, r: int, c: int)
    requires
        in_bounds(r, c),
    ensures
        completions_below(g, r, c, 1) == Set::<Seq<Seq<u8>>>::empty(),
        completions_below(g, r, c, 10) == completions(g),
{
    assert(completions_below(g, r, c, 1) =~= Set::<Seq<Seq<u8>>>::empty());
    assert(completions_below(g, r, c, 10) =~= completions(g));
}

} // verus!
