//! Rows, columns and boxes as sequences of nine entries, and the counting
//! argument that turns "no digit twice" into "every digit once".

use vstd::prelude::*;
use vstd::set_lib::{lemma_int_range, lemma_subset_equality, set_int_range};
use crate::completion::{
    are_peers, completions, extends, fills_legally, is_completion, is_solution, is_valid,
};
use crate::grid::{in_bounds, is_full, well_formed};

verus! {

/// Nine different digits: a permutation of `1..=9`.
pub open spec fn is_digit_permutation(s: Seq<u8>) -> bool {
    &&& s.len() == 9
    &&& forall|i: int| 0 <= i < 9 ==> 1 <= #[trigger] s[i] <= 9
    &&& forall|i: int, j: int| 0 <= i < j < 9 ==> #[trigger] s[i] != #[trigger] s[j]
}

/// The digits `1, 2, ..., 9` in order.
pub open spec fn ordered_digits() -> Seq<u8> {
    seq![1u8, 2u8, 3u8, 4u8, 5u8, 6u8, 7u8, 8u8, 9u8]
}

/// `d` occurs at exactly one position of `s`.
pub open spec fn occurs_once(s: Seq<u8>, d: u8) -> bool {
    exists|i: int|
        0 <= i < s.len() && #[trigger] s[i] == d && forall|j: int|
            0 <= j < s.len() && #[trigger] s[j] == d ==> j == i
}

/// Row `r` of `g`, left to right.
pub open spec fn row_of(g: Seq<Seq<u8>>, r: int) -> Seq<u8> {
    Seq::new(9, |k: int| g[r][k])
}

/// Column `c` of `g`, top to bottom.
pub open spec fn col_of(g: Seq<Seq<u8>>, c: int) -> Seq<u8> {
    Seq::new(9, |k: int| g[k][c])
}

/// Box `b` of `g` in row-major order; the boxes themselves are numbered in
/// row-major order too.
pub open spec fn box_of(g: Seq<Seq<u8>>, b: int) -> Seq<u8> {
    Seq::new(9, |k: int| g[3 * (b / 3) + k / 3][3 * (b % 3) + k % 3])
}

/// Every row, every column and every box holds each digit `1..=9` exactly
/// once.
pub open spec fn each_digit_once(g: Seq<Seq<u8>>) -> bool {
    &&& forall|u: int, d: u8| 0 <= u < 9 && 1 <= d <= 9 ==> #[trigger] occurs_once(row_of(g, u), d)
    &&& forall|u: int, d: u8| 0 <= u < 9 && 1 <= d <= 9 ==> #[trigger] occurs_once(col_of(g, u), d)
    &&& forall|u: int, d: u8| 0 <= u < 9 && 1 <= d <= 9 ==> #[trigger] occurs_once(box_of(g, u), d)
}

/// A permutation of the digits holds every digit exactly once.
pub proof fn lemma_permutation_holds_every_digit(s: Seq<u8>)
    requires
        is_digit_permutation(s),
    ensures
        forall|d: u8| 1 <= d <= 9 ==> #[trigger] occurs_once(s, d),
{
    let ints = Seq::new(9, |i: int| s[i] as int);
    assert(ints.no_duplicates()) by {
        assert forall|i: int, j: int| 0 <= i < ints.len() && 0 <= j < ints.len() && i != j implies ints[i]
            != ints[j] by {
            if i < j {
                assert(s[i] != s[j]);
            } else {
                assert(s[j] != s[i]);
            }
        }
    }
    ints.unique_seq_to_set();
    lemma_int_range(1, 10);
    assert(ints.to_set().subset_of(set_int_range(1, 10))) by {
        assert forall|v: int| ints.to_set().contains(v) implies set_int_range(1, 10).contains(v) by {
            let i = choose|i: int| 0 <= i < ints.len() && ints[i] == v;
            assert(1 <= s[i] <= 9);
        }
    }
    ints.lemma_cardinality_of_set();
    lemma_subset_equality(ints.to_set(), set_int_range(1, 10));
    assert forall|d: u8| 1 <= d <= 9 implies #[trigger] occurs_once(s, d) by {
        assert(set_int_range(1, 10).contains(d as int));
        assert(ints.to_set().contains(d as int));
        let i = choose|i: int| 0 <= i < ints.len() && ints[i] == d as int;
        assert(s[i] == d);
        assert forall|j: int| 0 <= j < s.len() && #[trigger] s[j] == d implies j == i by {
            if j < i {
                assert(s[j] != s[i]);
            }
            if i < j {
                assert(s[i] != s[j]);
            }
        }
    }
}

/// In a solution every row, column and box is a permutation of the digits,
/// so each of them holds every digit exactly once.
pub proof fn lemma_solution_holds_each_digit_once(g: Seq<Seq<u8>>)
    requires
        is_solution(g),
    ensures
        each_digit_once(g),
{
    assert forall|u: int| 0 <= u < 9 implies is_digit_permutation(#[trigger] row_of(g, u))
        && is_digit_permutation(#[trigger] col_of(g, u)) && is_digit_permutation(
        #[trigger] box_of(g, u),
    ) by {
        let row = row_of(g, u);
        assert(is_digit_permutation(row)) by {
            assert forall|i: int| 0 <= i < 9 implies 1 <= #[trigger] row[i] <= 9 by {
                assert(in_bounds(u, i));
                assert(g[u][i] != 0 && g[u][i] <= 9);
            }
            assert forall|i: int, j: int| 0 <= i < j < 9 implies #[trigger] row[i] != #[trigger] row[j] by {
                assert(in_bounds(u, i) && in_bounds(u, j) && are_peers(u, i, u, j));
                assert(g[u][i] != 0);
                assert(g[u][i] != g[u][j]);
            }
        }
        let col = col_of(g, u);
        assert(is_digit_permutation(col)) by {
            assert forall|i: int| 0 <= i < 9 implies 1 <= #[trigger] col[i] <= 9 by {
                assert(in_bounds(i, u));
                assert(g[i][u] != 0 && g[i][u] <= 9);
            }
            assert forall|i: int, j: int| 0 <= i < j < 9 implies #[trigger] col[i] != #[trigger] col[j] by {
                assert(in_bounds(i, u) && in_bounds(j, u) && are_peers(i, u, j, u));
                assert(g[i][u] != 0);
                assert(g[i][u] != g[j][u]);
            }
        }
        let bx = box_of(g, u);
        assert(is_digit_permutation(bx)) by {
            assert forall|i: int| 0 <= i < 9 implies 1 <= #[trigger] bx[i] <= 9 by {
                let (r, c) = (3 * (u / 3) + i / 3, 3 * (u % 3) + i % 3);
                assert(in_bounds(r, c));
                assert(g[r][c] != 0 && g[r][c] <= 9);
            }
            assert forall|i: int, j: int| 0 <= i < j < 9 implies #[trigger] bx[i] != #[trigger] bx[j] by {
                let (r1, c1) = (3 * (u / 3) + i / 3, 3 * (u % 3) + i % 3);
                let (r2, c2) = (3 * (u / 3) + j / 3, 3 * (u % 3) + j % 3);
                assert(in_bounds(r1, c1) && in_bounds(r2, c2) && are_peers(r1, c1, r2, c2));
                assert(g[r1][c1] != 0);
                assert(g[r1][c1] != g[r2][c2]);
            }
        }
    }
    assert forall|u: int, d: u8| 0 <= u < 9 && 1 <= d <= 9 implies #[trigger] occurs_once(
        row_of(g, u),
        d,
    ) by {
        lemma_permutation_holds_every_digit(row_of(g, u));
    }
    assert forall|u: int, d: u8| 0 <= u < 9 && 1 <= d <= 9 implies #[trigger] occurs_once(
        col_of(g, u),
        d,
    ) by {
        lemma_permutation_holds_every_digit(col_of(g, u));
    }
    assert forall|u: int, d: u8| 0 <= u < 9 && 1 <= d <= 9 implies #[trigger] occurs_once(
        box_of(g, u),
        d,
    ) by {
        lemma_permutation_holds_every_digit(box_of(g, u));
    }
}

/// The completions of a grid that satisfies the validity invariant are the
/// solutions that keep its digits.
pub proof fn lemma_completions_of_valid(g: Seq<Seq<u8>>, f: Seq<Seq<u8>>)
    requires
        well_formed(g),
        is_valid(g),
    ensures
        is_completion(g, f) <==> is_solution(f) && extends(f, g),
{
    if is_completion(g, f) {
        assert forall|r1: int, c1: int, r2: int, c2: int|
            in_bounds(r1, c1) && in_bounds(r2, c2) && are_peers(r1, c1, r2, c2) && f[r1][c1]
                != 0 implies #[trigger] f[r1][c1] != #[trigger] f[r2][c2] by {
            if g[r1][c1] == 0 {
            } else if g[r2][c2] == 0 {
                assert(are_peers(r2, c2, r1, c1));
                assert(f[r2][c2] != f[r1][c1]);
            } else {
                assert(f[r1][c1] == g[r1][c1]);
                assert(f[r2][c2] == g[r2][c2]);
                assert(g[r1][c1] != g[r2][c2]);
            }
        }
    }
    if is_solution(f) && extends(f, g) {
        assert forall|r1: int, c1: int, r2: int, c2: int|
            in_bounds(r1, c1) && in_bounds(r2, c2) && are_peers(r1, c1, r2, c2) && g[r1][c1]
                == 0 implies #[trigger] f[r1][c1] != #[trigger] f[r2][c2] by {
            assert(f[r1][c1] != 0);
        }
    }
}

/// The solutions that keep every digit of `g`.
pub open spec fn solutions_of(g: Seq<Seq<u8>>) -> Set<Seq<Seq<u8>>> {
    Set::new(|f: Seq<Seq<u8>>| is_solution(f) && extends(f, g))
}

/// To complete a grid that satisfies the validity invariant is to solve it:
/// its completions are the solutions that keep its digits.
pub proof fn lemma_completions_are_solutions(g: Seq<Seq<u8>>)
    requires
        well_formed(g),
        is_valid(g),
    ensures
        completions(g) == solutions_of(g),
{
    assert forall|f: Seq<Seq<u8>>| completions(g).contains(f) <==> solutions_of(g).contains(f) by {
        lemma_completions_of_valid(g, f);
    }
    assert(completions(g) =~= solutions_of(g));
}

} // verus!
