//! The grid masker: removes digits from a solution in groups, keeping a
//! removal only while the puzzle still has exactly one completion.

use rand::rngs::ThreadRng;
use vstd::prelude::*;
use vstd::arithmetic::div_mod::lemma_fundamental_div_mod_converse;
use vstd::set_lib::{lemma_int_range, set_int_range};
use crate::completion::{
    are_peers, completions, given_positions, is_completion, is_solution, is_valid,
    lemma_full_grid_completions, lemma_given_positions_finite, lemma_with_cell,
};
use crate::grid::{cell_at, cells, in_bounds, is_full, set_cell, well_formed, with_cell};
use crate::random::{random_in, thread_rng};
use crate::solver::count_in_place;
use crate::units::{lemma_solution_holds_each_digit_once, occurs_once, row_of};

verus! {

/// Removals are proposed four cells at a time until this many cells have
/// been removed.
pub const QUAD_PHASE_LIMIT: usize = 20;

/// Removals are then proposed two cells at a time until this many cells have
/// been removed; the rest is removed cell by cell.
pub const PAIR_PHASE_LIMIT: usize = 30;

/// The fewest digits a puzzle with a single completion can show.
pub const MIN_GIVEN_COUNT: usize = 17;

/// `p` is `filled` with some of its cells emptied.
pub open spec fn is_masking_of(p: Seq<Seq<u8>>, filled: Seq<Seq<u8>>) -> bool {
    &&& well_formed(p)
    &&& forall|r: int, c: int|
        in_bounds(r, c) ==> #[trigger] p[r][c] == 0 || p[r][c] == filled[r][c]
}

/// `(r, c)` is one of the cells listed in `picks`.
pub open spec fn is_picked(picks: Seq<(usize, usize)>, r: int, c: int) -> bool {
    exists|i: int| 0 <= i < picks.len() && (#[trigger] picks[i]).0 == r && picks[i].1 == c
}

/// The grid `g` with every cell listed in `picks` emptied.
pub open spec fn masked(g: Seq<Seq<u8>>, picks: Seq<(usize, usize)>) -> Seq<Seq<u8>> {
    Seq::new(
        9,
        |r: int|
            Seq::new(
                9,
                |c: int|
                    if is_picked(picks, r, c) {
                        0u8
                    } else {
                        g[r][c]
                    },
            ),
    )
}

/// Every listed cell lies on the board and holds a digit in `g`.
pub open spec fn picks_given(g: Seq<Seq<u8>>, picks: Seq<(usize, usize)>) -> bool {
    forall|i: int|
        0 <= i < picks.len() ==> in_bounds((#[trigger] picks[i]).0 as int, picks[i].1 as int)
            && g[picks[i].0 as int][picks[i].1 as int] != 0
}

/// The grid in the middle of taking a removal back: the cells listed in
/// `picks` are empty, except the first `restored` of them, which hold their
/// digits again.
pub open spec fn partly_restored(g: Seq<Seq<u8>>, picks: Seq<(usize, usize)>, restored: int) -> Seq<
    Seq<u8>,
> {
    Seq::new(
        9,
        |r: int|
            Seq::new(
                9,
                |c: int|
                    if is_picked(picks, r, c) && !is_picked(picks.take(restored), r, c) {
                        0u8
                    } else {
                        g[r][c]
                    },
            ),
    )
}

/// Listing one more cell adds that cell to the listed ones and no other.
pub proof fn lemma_is_picked_push(picks: Seq<(usize, usize)>, p: (usize, usize), r: int, c: int)
    ensures
        is_picked(picks.push(p), r, c) <==> is_picked(picks, r, c) || (p.0 == r && p.1 == c),
{
    let more = picks.push(p);
    if is_picked(picks, r, c) {
        let i = choose|i: int| 0 <= i < picks.len() && (#[trigger] picks[i]).0 == r && picks[i].1 == c;
        assert(more[i] == picks[i]);
    }
    if p.0 == r && p.1 == c {
        assert(more[picks.len() as int] == p);
    }
    if is_picked(more, r, c) {
        let i = choose|i: int| 0 <= i < more.len() && (#[trigger] more[i]).0 == r && more[i].1 == c;
        if i < picks.len() {
            assert(picks[i] == more[i]);
        }
    }
}

/// Emptying no cell changes nothing.
pub proof fn lemma_masked_nothing(g: Seq<Seq<u8>>)
    requires
        well_formed(g),
    ensures
        masked(g, Seq::<(usize, usize)>::empty()) == g,
{
    let m = masked(g, Seq::<(usize, usize)>::empty());
    assert forall|r: int| 0 <= r < 9 implies m[r] == g[r] by {
        assert(m[r] =~= g[r]);
    }
    assert(m =~= g);
}

/// Emptying the listed cells and then one more is emptying the longer list.
pub proof fn lemma_masked_push(g: Seq<Seq<u8>>, picks: Seq<(usize, usize)>, p: (usize, usize))
    requires
        well_formed(g),
        in_bounds(p.0 as int, p.1 as int),
    ensures
        well_formed(masked(g, picks)),
        masked(g, picks.push(p)) == with_cell(masked(g, picks), p.0 as int, p.1 as int, 0),
{
    let m = masked(g, picks);
    let more = masked(g, picks.push(p));
    assert(well_formed(m));
    lemma_with_cell(m, p.0 as int, p.1 as int, 0);
    let w = with_cell(m, p.0 as int, p.1 as int, 0);
    assert forall|r: int| 0 <= r < 9 implies more[r] == w[r] by {
        assert forall|c: int| 0 <= c < 9 implies more[r][c] == w[r][c] by {
            lemma_is_picked_push(picks, p, r, c);
            assert(in_bounds(r, c));
        }
        assert(more[r] =~= w[r]);
    }
    assert(more =~= w);
}

/// Emptying a cell takes its position out of the given ones.
pub proof fn lemma_emptying_removes_given(g: Seq<Seq<u8>>, r: int, c: int)
    requires
        well_formed(g),
        in_bounds(r, c),
    ensures
        given_positions(with_cell(g, r, c, 0)) == given_positions(g).remove(9 * r + c),
{
    let h = with_cell(g, r, c, 0);
    lemma_with_cell(g, r, c, 0);
    let k0 = 9 * r + c;
    assert(k0 / 9 == r && k0 % 9 == c);
    assert forall|k: int| given_positions(h).contains(k) <==> given_positions(g).remove(
        k0,
    ).contains(k) by {
        if 0 <= k < 81 {
            assert(in_bounds(k / 9, k % 9));
            if k != k0 {
                assert(k / 9 != r || k % 9 != c);
            }
        }
    }
    assert(given_positions(h) =~= given_positions(g).remove(k0));
}

/// Emptying a list of different cells that all hold a digit removes exactly
/// as many digits as the list is long.
pub proof fn lemma_masked_distinct_given_count(g: Seq<Seq<u8>>, picks: Seq<(usize, usize)>)
    requires
        well_formed(g),
        picks_given(g, picks),
        picks.no_duplicates(),
    ensures
        given_positions(masked(g, picks)).len() + picks.len() == given_positions(g).len(),
    decreases picks.len(),
{
    lemma_given_positions_finite(g);
    if picks.len() == 0 {
        assert(picks =~= Seq::<(usize, usize)>::empty());
        lemma_masked_nothing(g);
    } else {
        let rest = picks.drop_last();
        let p = picks.last();
        assert(picks =~= rest.push(p));
        assert forall|i: int| 0 <= i < rest.len() implies in_bounds(
            (#[trigger] rest[i]).0 as int,
            rest[i].1 as int,
        ) && g[rest[i].0 as int][rest[i].1 as int] != 0 by {
            assert(rest[i] == picks[i]);
        }
        assert(rest.no_duplicates()) by {
            assert forall|i: int, j: int|
                0 <= i < rest.len() && 0 <= j < rest.len() && i != j implies rest[i] != rest[j] by {
                assert(rest[i] == picks[i] && rest[j] == picks[j]);
            }
        }
        lemma_masked_distinct_given_count(g, rest);
        lemma_masked_push(g, rest, p);
        let m = masked(g, rest);
        lemma_emptying_removes_given(m, p.0 as int, p.1 as int);
        lemma_given_positions_finite(m);
        assert(!is_picked(rest, p.0 as int, p.1 as int)) by {
            if is_picked(rest, p.0 as int, p.1 as int) {
                let i = choose|i: int|
                    0 <= i < rest.len() && (#[trigger] rest[i]).0 == p.0 as int && rest[i].1
                        == p.1 as int;
                assert(picks[i] == rest[i]);
                assert(picks[i] == picks[picks.len() - 1]);
            }
        }
        assert(in_bounds(p.0 as int, p.1 as int));
        assert(m[p.0 as int][p.1 as int] == g[p.0 as int][p.1 as int]);
        let k0 = 9 * (p.0 as int) + p.1 as int;
        assert(k0 / 9 == p.0 as int && k0 % 9 == p.1 as int);
        assert(given_positions(m).contains(k0));
    }
}

/// Taking a removal back cell by cell: before the first step the listed
/// cells are empty, each step restores one listed cell, and after the last
/// the grid is as it was.
pub proof fn lemma_partly_restored(g: Seq<Seq<u8>>, picks: Seq<(usize, usize)>, restored: int)
    requires
        well_formed(g),
        picks_given(g, picks),
        0 <= restored <= picks.len(),
    ensures
        well_formed(partly_restored(g, picks, restored)),
        restored == 0 ==> partly_restored(g, picks, restored) == masked(g, picks),
        restored == picks.len() ==> partly_restored(g, picks, restored) == g,
        restored < picks.len() ==> partly_restored(g, picks, restored + 1) == with_cell(
            partly_restored(g, picks, restored),
            picks[restored].0 as int,
            picks[restored].1 as int,
            g[picks[restored].0 as int][picks[restored].1 as int],
        ),
{
    let cur = partly_restored(g, picks, restored);
    assert(well_formed(cur));
    if restored == 0 {
        let m = masked(g, picks);
        assert(picks.take(0) =~= Seq::<(usize, usize)>::empty());
        assert forall|r: int| 0 <= r < 9 implies cur[r] == m[r] by {
            assert(cur[r] =~= m[r]);
        }
        assert(cur =~= m);
    }
    if restored == picks.len() {
        assert(picks.take(restored) =~= picks);
        assert forall|r: int| 0 <= r < 9 implies cur[r] == g[r] by {
            assert(cur[r] =~= g[r]);
        }
        assert(cur =~= g);
    }
    if restored < picks.len() {
        let p = picks[restored];
        let next = partly_restored(g, picks, restored + 1);
        assert(in_bounds(p.0 as int, p.1 as int));
        lemma_with_cell(cur, p.0 as int, p.1 as int, g[p.0 as int][p.1 as int]);
        let w = with_cell(cur, p.0 as int, p.1 as int, g[p.0 as int][p.1 as int]);
        assert(picks.take(restored + 1) =~= picks.take(restored).push(p));
        assert forall|r: int| 0 <= r < 9 implies next[r] == w[r] by {
            assert forall|c: int| 0 <= c < 9 implies next[r][c] == w[r][c] by {
                lemma_is_picked_push(picks.take(restored), p, r, c);
                assert(in_bounds(r, c));
            }
            assert(next[r] =~= w[r]);
        }
        assert(next =~= w);
    }
}

/// The coordinate that mirrors `coord` through the centre of the board,
/// moved by `offset` and wrapped around the edge.
pub open spec fn jittered_mirror(coord: int, offset: int) -> int {
    (8 - coord + offset + 9) % 9
}

/// `(r, c)` can be reached from the mirror image of `(row, col)` by moving
/// each coordinate by at most three, wrapping around the edges.
pub open spec fn is_near_mirror(row: int, col: int, r: int, c: int) -> bool {
    exists|dr: int, dc: int|
        -3 <= dr <= 3 && -3 <= dc <= 3 && r == #[trigger] jittered_mirror(row, dr) && c
            == #[trigger] jittered_mirror(col, dc)
}

/// No cell of `g` holds a digit.
pub open spec fn has_no_digit(g: Seq<Seq<u8>>) -> bool {
    forall|r: int, c: int| in_bounds(r, c) ==> #[trigger] g[r][c] == 0
}

/// Every cell within reach of the mirror image of `(row, col)` holds a digit.
pub open spec fn mirror_reach_given(g: Seq<Seq<u8>>, row: int, col: int) -> bool {
    forall|r: int, c: int|
        in_bounds(r, c) && is_near_mirror(row, col, r, c) ==> #[trigger] g[r][c] != 0
}

/// No cell within reach of the mirror image of `(row, col)` holds a digit.
pub open spec fn mirror_reach_empty(g: Seq<Seq<u8>>, row: int, col: int) -> bool {
    forall|r: int, c: int|
        in_bounds(r, c) && is_near_mirror(row, col, r, c) ==> #[trigger] g[r][c] == 0
}

/// Mirrors a coordinate through the centre of the board and moves it by
/// `offset`, wrapping around the edge.
pub fn mirrored_with_offset(coord: usize, offset: isize) -> (moved: usize)
    requires
        coord < 9,
        -3 <= offset <= 3,
    ensures
        moved == jittered_mirror(coord as int, offset as int),
        moved < 9,
{
    let mirror: isize = 9 - (coord as isize) - 1;
    let shifted: isize = mirror + offset + 9;
    (shifted % 9) as usize
}

/// Samples cells uniformly, at most `tries` times, and returns the first one
/// that holds a digit.
///
/// Which cell is returned, and whether one is found in time, is for the
/// random source to decide, except where the grid leaves no choice: on a full
/// grid the first sample is returned, and on a grid without digits none is.
pub fn get_random_unmasked_cell(grid: &[Vec<u8>], rng: &mut ThreadRng, tries: usize) -> (cell:
    Option<(usize, usize)>)
    requires
        well_formed(cells(grid@)),
    ensures
        cell matches Some((r, c)) ==> in_bounds(r as int, c as int) && cells(grid@)[r as int][c as int]
            != 0,
        tries == 0 ==> cell is None,
        has_no_digit(cells(grid@)) ==> cell is None,
        tries > 0 && is_full(cells(grid@)) ==> cell is Some,
{
    let mut left = tries;
    while left > 0
        invariant
            left <= tries,
            well_formed(cells(grid@)),
            left < tries ==> !is_full(cells(grid@)),
        decreases left,
    {
        left -= 1;
        let row = random_in(rng, 0, 8) as usize;
        let col = random_in(rng, 0, 8) as usize;
        if cell_at(grid, row, col) != 0 {
            return Some((row, col));
        }
        assert(in_bounds(row as int, col as int) && cells(grid@)[row as int][col as int] == 0);
    }
    None
}

/// Samples cells around the mirror image of `(row, col)`, at most `tries`
/// times, and returns the first one that holds a digit. Each sample moves
/// both mirrored coordinates by a random offset of at most three.
///
/// Which cell is returned, and whether one is found in time, is for the
/// random source to decide, except where the grid leaves no choice: if every
/// cell within reach of the mirror image holds a digit the first sample is
/// returned, and if none does none is.
pub fn get_jittery_mirrored_cell(
    grid: &[Vec<u8>],
    row: usize,
    col: usize,
    rng: &mut ThreadRng,
    tries: usize,
) -> (cell: Option<(usize, usize)>)
    requires
        well_formed(cells(grid@)),
        row < 9,
        col < 9,
    ensures
        cell matches Some((r, c)) ==> in_bounds(r as int, c as int) && cells(grid@)[r as int][c as int]
            != 0 && is_near_mirror(row as int, col as int, r as int, c as int),
        tries == 0 ==> cell is None,
        mirror_reach_empty(cells(grid@), row as int, col as int) ==> cell is None,
        tries > 0 && mirror_reach_given(cells(grid@), row as int, col as int) ==> cell is Some,
{
    let mut left = tries;
    while left > 0
        invariant
            left <= tries,
            well_formed(cells(grid@)),
            row < 9,
            col < 9,
            left < tries ==> !mirror_reach_given(cells(grid@), row as int, col as int),
        decreases left,
    {
        left -= 1;
        let row_offset = random_in(rng, -3, 3);
        let new_row = mirrored_with_offset(row, row_offset);
        let col_offset = random_in(rng, -3, 3);
        let new_col = mirrored_with_offset(col, col_offset);
        assert(is_near_mirror(row as int, col as int, new_row as int, new_col as int)) by {
            assert(new_row == jittered_mirror(row as int, row_offset as int));
            assert(new_col == jittered_mirror(col as int, col_offset as int));
        }
        if cell_at(grid, new_row, new_col) != 0 {
            return Some((new_row, new_col));
        }
        assert(in_bounds(new_row as int, new_col as int) && cells(grid@)[new_row as int][new_col as int]
            == 0);
    }
    None
}

/// Copies a grid.
pub fn clone_grid(grid: &[Vec<u8>]) -> (copy: Vec<Vec<u8>>)
    requires
        well_formed(cells(grid@)),
    ensures
        cells(copy@) == cells(grid@),
{
    let ghost g = cells(grid@);
    let mut copy: Vec<Vec<u8>> = Vec::new();
    let mut r: usize = 0;
    while r < 9
        invariant
            r <= 9,
            g == cells(grid@),
            well_formed(g),
            copy@.len() == r,
            forall|k: int| 0 <= k < r ==> (#[trigger] copy@[k])@ == g[k],
        decreases 9 - r,
    {
        let mut row: Vec<u8> = Vec::new();
        let mut c: usize = 0;
        while c < 9
            invariant
                r < 9,
                c <= 9,
                g == cells(grid@),
                well_formed(g),
                row@.len() == c,
                forall|k: int| 0 <= k < c ==> #[trigger] row@[k] == g[r as int][k],
            decreases 9 - c,
        {
            row.push(cell_at(grid, r, c));
            c += 1;
        }
        assert(row@ =~= g[r as int]);
        copy.push(row);
        r += 1;
    }
    assert(cells(copy@) =~= g);
    copy
}

/// Proposes the removal of the listed cells and decides it.
///
/// The cells are emptied and the completions of the result are counted. If
/// there is exactly one, the removal is kept; otherwise every listed cell
/// gets its digit back from `filled` and the puzzle is as it was.
pub fn try_remove(puzzle: &mut Vec<Vec<u8>>, filled: &[Vec<u8>], picks: &Vec<(usize, usize)>) -> (kept:
    bool)
    requires
        well_formed(cells(filled@)),
        is_masking_of(cells(old(puzzle)@), cells(filled@)),
        picks_given(cells(old(puzzle)@), picks@),
    ensures
        completions(masked(cells(old(puzzle)@), picks@)).finite(),
        kept <==> completions(masked(cells(old(puzzle)@), picks@)).len() == 1,
        kept ==> cells(final(puzzle)@) == masked(cells(old(puzzle)@), picks@),
        !kept ==> cells(final(puzzle)@) == cells(old(puzzle)@),
{
    let ghost g = cells(puzzle@);
    let ghost f = cells(filled@);
    let mut i: usize = 0;
    proof {
        assert(picks@.take(0) =~= Seq::<(usize, usize)>::empty());
        lemma_masked_nothing(g);
    }
    while i < picks.len()
        invariant
            i <= picks.len(),
            well_formed(g),
            picks_given(g, picks@),
            well_formed(cells(puzzle@)),
            cells(puzzle@) == masked(g, picks@.take(i as int)),
        decreases picks.len() - i,
    {
        let (row, col) = picks[i];
        proof {
            lemma_masked_push(g, picks@.take(i as int), picks@[i as int]);
            assert(picks@.take(i + 1) =~= picks@.take(i as int).push(picks@[i as int]));
        }
        set_cell(puzzle, row, col, 0);
        i += 1;
    }
    assert(picks@.take(picks.len() as int) =~= picks@);
    if count_in_place(puzzle) == 1 {
        return true;
    }
    let mut j: usize = 0;
    proof {
        lemma_partly_restored(g, picks@, 0);
    }
    while j < picks.len()
        invariant
            j <= picks.len(),
            well_formed(g),
            f == cells(filled@),
            well_formed(f),
            is_masking_of(g, f),
            picks_given(g, picks@),
            well_formed(cells(puzzle@)),
            cells(puzzle@) == partly_restored(g, picks@, j as int),
        decreases picks.len() - j,
    {
        let (row, col) = picks[j];
        let digit = cell_at(filled, row, col);
        proof {
            lemma_partly_restored(g, picks@, j as int);
            assert(g[row as int][col as int] != 0);
            assert(g[row as int][col as int] == f[row as int][col as int]);
        }
        set_cell(puzzle, row, col, digit);
        j += 1;
    }
    proof {
        lemma_partly_restored(g, picks@, picks.len() as int);
    }
    false
}

/// A solution is a completion of each of its maskings.
pub proof fn lemma_masking_keeps_solution(p: Seq<Seq<u8>>, filled: Seq<Seq<u8>>)
    requires
        is_solution(filled),
        is_masking_of(p, filled),
    ensures
        is_completion(p, filled),
{
}

/// Emptying cells cannot break the validity invariant.
pub proof fn lemma_masking_stays_valid(p: Seq<Seq<u8>>, filled: Seq<Seq<u8>>)
    requires
        is_valid(filled),
        is_masking_of(p, filled),
    ensures
        is_valid(p),
{
    assert forall|r1: int, c1: int, r2: int, c2: int|
        in_bounds(r1, c1) && in_bounds(r2, c2) && are_peers(r1, c1, r2, c2) && p[r1][c1]
            != 0 implies #[trigger] p[r1][c1] != #[trigger] p[r2][c2] by {
        assert(p[r1][c1] == filled[r1][c1]);
        if p[r2][c2] != 0 {
            assert(p[r2][c2] == filled[r2][c2]);
            assert(filled[r1][c1] != filled[r2][c2]);
        }
    }
}

/// A set with one element holds nothing but that element.
pub proof fn lemma_single_completion(p: Seq<Seq<u8>>, f: Seq<Seq<u8>>)
    requires
        completions(p).finite(),
        completions(p).len() == 1,
        is_completion(p, f),
    ensures
        completions(p) == set![f],
{
    let s = completions(p);
    assert(s.contains(f));
    assert(s.remove(f).len() == 0);
    assert(s.remove(f) =~= Set::<Seq<Seq<u8>>>::empty());
    assert(s =~= set![f]);
}

/// A full grid shows all 81 digits.
pub proof fn lemma_full_grid_given_count(g: Seq<Seq<u8>>)
    requires
        well_formed(g),
        is_full(g),
    ensures
        given_positions(g).len() == 81,
{
    lemma_int_range(0, 81);
    assert forall|k: int| set_int_range(0, 81).contains(k) implies given_positions(g).contains(
        k,
    ) by {
        assert(in_bounds(k / 9, k % 9));
    }
    assert(given_positions(g) =~= set_int_range(0, 81));
}

/// Emptying cells of a masking gives a masking.
pub proof fn lemma_masked_is_masking(p: Seq<Seq<u8>>, filled: Seq<Seq<u8>>, picks: Seq<(usize, usize)>)
    requires
        is_masking_of(p, filled),
    ensures
        is_masking_of(masked(p, picks), filled),
{
    let m = masked(p, picks);
    assert forall|r: int, c: int| in_bounds(r, c) implies #[trigger] m[r][c] == 0 || m[r][c]
        == filled[r][c] by {
        assert(p[r][c] == 0 || p[r][c] == filled[r][c]);
    }
}

/// How many cells a group of `singles` random cells holds, with or without
/// their mirror cells.
pub open spec fn group_size(singles: usize, mirrored: bool) -> int {
    if mirrored {
        2 * singles
    } else {
        singles as int
    }
}

/// In a group picked with mirror cells, the cell at place `singles + k` lies
/// within reach of the mirror image of the cell at place `k`.
pub open spec fn mirrors_follow(picks: Seq<(usize, usize)>, singles: int) -> bool {
    forall|k: int|
        0 <= k < singles ==> is_near_mirror(
            picks[k].0 as int,
            picks[k].1 as int,
            (#[trigger] picks[singles + k]).0 as int,
            picks[singles + k].1 as int,
        )
}

/// Picks a group of cells to remove together: `singles` random cells that
/// hold a digit and, if `mirrored`, for each of them in turn a cell near its
/// mirror image that holds a digit. No cell is sampled more than `tries`
/// times; `None` means that some sampling ran out of tries.
///
/// Whether the group is found in time is for the random source to decide,
/// except where nothing is left to it: an empty group is always found, and
/// on a full puzzle every first sample is taken.
pub fn pick_group(
    puzzle: &[Vec<u8>],
    rng: &mut ThreadRng,
    singles: usize,
    mirrored: bool,
    tries: usize,
) -> (group: Option<Vec<(usize, usize)>>)
    requires
        well_formed(cells(puzzle@)),
        2 * singles <= usize::MAX,
    ensures
        group matches Some(picks) ==> {
            &&& picks_given(cells(puzzle@), picks@)
            &&& picks@.len() == group_size(singles, mirrored)
            &&& mirrored ==> mirrors_follow(picks@, singles as int)
        },
        singles > 0 && (tries == 0 || has_no_digit(cells(puzzle@))) ==> group is None,
        singles == 0 || (tries > 0 && is_full(cells(puzzle@))) ==> group is Some,
{
    let mut picks: Vec<(usize, usize)> = Vec::new();
    let mut i: usize = 0;
    while i < singles
        invariant
            i <= singles,
            well_formed(cells(puzzle@)),
            picks@.len() == i,
            picks_given(cells(puzzle@), picks@),
            i > 0 ==> tries > 0 && !has_no_digit(cells(puzzle@)),
        decreases singles - i,
    {
        match get_random_unmasked_cell(puzzle, rng, tries) {
            Some(cell) => {
                picks.push(cell);
            },
            None => {
                return None;
            },
        }
        i += 1;
    }
    if mirrored {
        let ghost chosen = picks@;
        let mut j: usize = 0;
        while j < singles
            invariant
                j <= singles,
                2 * singles <= usize::MAX,
                well_formed(cells(puzzle@)),
                picks@.len() == singles + j,
                picks_given(cells(puzzle@), picks@),
                chosen.len() == singles,
                forall|k: int| 0 <= k < singles ==> picks@[k] == #[trigger] chosen[k],
                forall|k: int|
                    0 <= k < j ==> is_near_mirror(
                        chosen[k].0 as int,
                        chosen[k].1 as int,
                        (#[trigger] picks@[singles + k]).0 as int,
                        picks@[singles + k].1 as int,
                    ),
                singles > 0 ==> tries > 0 && !has_no_digit(cells(puzzle@)),
            decreases singles - j,
        {
            let (row, col) = picks[j];
            proof {
                if is_full(cells(puzzle@)) {
                    assert(mirror_reach_given(cells(puzzle@), row as int, col as int));
                }
            }
            match get_jittery_mirrored_cell(puzzle, row, col, rng, tries) {
                Some(cell) => {
                    picks.push(cell);
                },
                None => {
                    return None;
                },
            }
            j += 1;
        }
        assert(mirrors_follow(picks@, singles as int)) by {
            assert forall|k: int| 0 <= k < singles implies is_near_mirror(
                picks@[k].0 as int,
                picks@[k].1 as int,
                (#[trigger] picks@[singles + k]).0 as int,
                picks@[singles + k].1 as int,
            ) by {
                assert(picks@[k] == chosen[k]);
            }
        }
    }
    Some(picks)
}

/// Emptying one cell of a solution leaves a puzzle whose only completion is
/// that solution: the other eight digits of the cell's row leave one digit
/// for it.
pub proof fn lemma_one_cell_is_forced(g: Seq<Seq<u8>>, picks: Seq<(usize, usize)>)
    requires
        is_solution(g),
        picks.len() == 1,
        in_bounds(picks[0].0 as int, picks[0].1 as int),
    ensures
        completions(masked(g, picks)) == set![g],
{
    let m = masked(g, picks);
    let r = picks[0].0 as int;
    let c = picks[0].1 as int;
    assert forall|r2: int, c2: int| in_bounds(r2, c2) implies #[trigger] m[r2][c2] == (if r2 == r
        && c2 == c {
        0u8
    } else {
        g[r2][c2]
    }) by {
        if is_picked(picks, r2, c2) {
            let i = choose|i: int|
                0 <= i < picks.len() && (#[trigger] picks[i]).0 == r2 && picks[i].1 == c2;
            assert(i == 0);
        }
        if r2 == r && c2 == c {
            assert(picks[0].0 == r2 && picks[0].1 == c2);
        }
    }
    lemma_masked_is_masking(g, g, picks);
    lemma_masking_keeps_solution(m, g);
    lemma_solution_holds_each_digit_once(g);
    assert forall|f: Seq<Seq<u8>>| completions(m).contains(f) implies f == g by {
        let d = f[r][c];
        assert(in_bounds(r, c));
        assert(1 <= d <= 9);
        assert(occurs_once(row_of(g, r), d));
        let i = choose|i: int| 0 <= i < 9 && #[trigger] row_of(g, r)[i] == d;
        if i != c {
            assert(in_bounds(r, i) && are_peers(r, c, r, i));
            assert(m[r][i] == g[r][i]);
            assert(f[r][i] == m[r][i]);
            assert(f[r][c] != f[r][i]);
        }
        assert forall|r2: int| 0 <= r2 < 9 implies f[r2] == g[r2] by {
            assert forall|c2: int| 0 <= c2 < 9 implies f[r2][c2] == g[r2][c2] by {
                assert(in_bounds(r2, c2));
                if r2 != r || c2 != c {
                    assert(m[r2][c2] == g[r2][c2]);
                    assert(f[r2][c2] == m[r2][c2]);
                }
            }
            assert(f[r2].len() == 9 && g[r2].len() == 9);
            assert(f[r2] =~= g[r2]);
        }
        assert(f =~= g);
    }
    assert(completions(m).contains(g));
    assert(completions(m) =~= set![g]);
}

/// A full masking of a grid is that grid.
pub proof fn lemma_full_masking_is_the_grid(p: Seq<Seq<u8>>, filled: Seq<Seq<u8>>)
    requires
        well_formed(filled),
        is_masking_of(p, filled),
        is_full(p),
    ensures
        p == filled,
{
    assert forall|r: int| 0 <= r < 9 implies p[r] == filled[r] by {
        assert forall|c: int| 0 <= c < 9 implies p[r][c] == filled[r][c] by {
            assert(in_bounds(r, c));
            assert(p[r][c] != 0);
        }
        assert(p[r].len() == 9 && filled[r].len() == 9);
        assert(p[r] =~= filled[r]);
    }
    assert(p =~= filled);
}

/// Tells whether the listed cells are pairwise different.
pub fn all_different(picks: &Vec<(usize, usize)>) -> (different: bool)
    ensures
        different == picks@.no_duplicates(),
{
    let mut i: usize = 0;
    while i < picks.len()
        invariant
            i <= picks.len(),
            forall|a: int, b: int| 0 <= a < i && a < b < picks.len() ==> picks@[a] != picks@[b],
        decreases picks.len() - i,
    {
        let mut j: usize = i + 1;
        while j < picks.len()
            invariant
                i < j <= picks.len(),
                forall|a: int, b: int| 0 <= a < i && a < b < picks.len() ==> picks@[a] != picks@[b],
                forall|b: int| i < b < j ==> picks@[i as int] != picks@[b],
            decreases picks.len() - j,
        {
            if picks[i].0 == picks[j].0 && picks[i].1 == picks[j].1 {
                return false;
            }
            j += 1;
        }
        i += 1;
    }
    assert forall|a: int, b: int|
        0 <= a < picks@.len() && 0 <= b < picks@.len() && a != b implies picks@[a] != picks@[b] by {
        if a < b {
            assert(picks@[a] != picks@[b]);
        } else {
            assert(picks@[b] != picks@[a]);
        }
    }
    true
}

/// A phase with one attempt or more is sure to end where it has a single
/// cell to remove from a puzzle that still shows every digit of a valid
/// grid: whichever cell is drawn, its digit is forced.
pub open spec fn removal_is_sure(
    puzzle: Seq<Seq<u8>>,
    filled: Seq<Seq<u8>>,
    singles: usize,
    mirrored: bool,
    to_remove: usize,
    max_attempts: usize,
) -> bool {
    &&& max_attempts > 0
    &&& singles == 1
    &&& !mirrored
    &&& to_remove == 1
    &&& is_full(puzzle)
    &&& is_valid(filled)
}

/// Runs one phase of the masking schedule.
///
/// While at least a whole group is still to be removed and fewer than
/// `limit` cells have been removed, a group is picked and, if its cells are
/// pairwise different, its removal is proposed; every round uses up one of
/// `max_attempts` attempts. Returns what is still to be removed and what has
/// been removed, or `None` if the attempts ran out before the phase reached
/// its end.
pub fn run_phase(
    puzzle: &mut Vec<Vec<u8>>,
    filled: &[Vec<u8>],
    rng: &mut ThreadRng,
    singles: usize,
    mirrored: bool,
    limit: usize,
    to_remove: usize,
    removed: usize,
    max_attempts: usize,
) -> (left: Option<(usize, usize)>)
    requires
        well_formed(cells(filled@)),
        is_masking_of(cells(old(puzzle)@), cells(filled@)),
        completions(cells(old(puzzle)@)).finite(),
        completions(cells(old(puzzle)@)).len() == 1,
        1 <= singles,
        2 * singles <= usize::MAX,
        to_remove + removed <= usize::MAX,
    ensures
        is_masking_of(cells(final(puzzle)@), cells(filled@)),
        completions(cells(final(puzzle)@)).finite(),
        completions(cells(final(puzzle)@)).len() == 1,
        given_positions(cells(final(puzzle)@)).len() <= given_positions(cells(old(puzzle)@)).len(),
        left matches Some((still, done)) ==> {
            let group = group_size(singles, mirrored);
            &&& still < group || done >= limit
            &&& done == removed || done < limit + group
            &&& still <= to_remove
            &&& still + done == to_remove + removed
            &&& (to_remove - still) % group == 0
            &&& given_positions(cells(final(puzzle)@)).len() + (to_remove - still)
                == given_positions(cells(old(puzzle)@)).len()
            &&& still == to_remove ==> cells(final(puzzle)@) == cells(old(puzzle)@)
        },
        to_remove < group_size(singles, mirrored) || removed >= limit ==> left == Some(
            (to_remove, removed),
        ),
        max_attempts == 0 && to_remove >= group_size(singles, mirrored) && removed < limit
            ==> left is None,
        removal_is_sure(
            cells(old(puzzle)@),
            cells(filled@),
            singles,
            mirrored,
            to_remove,
            max_attempts,
        ) ==> left is Some,
{
    let group: usize = if mirrored {
        2 * singles
    } else {
        singles
    };
    let mut still = to_remove;
    let mut done = removed;
    let mut attempts = max_attempts;
    let ghost start = cells(puzzle@);
    let ghost sure = removal_is_sure(
        start,
        cells(filled@),
        singles,
        mirrored,
        to_remove,
        max_attempts,
    );
    let ghost mut kept: int = 0;
    proof {
        lemma_given_positions_finite(start);
    }
    while still >= group && done < limit
        invariant
            well_formed(cells(filled@)),
            is_masking_of(cells(puzzle@), cells(filled@)),
            completions(cells(puzzle@)).finite(),
            completions(cells(puzzle@)).len() == 1,
            1 <= singles,
            2 * singles <= usize::MAX,
            group == group_size(singles, mirrored),
            still <= to_remove,
            still + done == to_remove + removed,
            to_remove + removed <= usize::MAX,
            start == cells(old(puzzle)@),
            to_remove - still == kept * group,
            given_positions(cells(puzzle@)).len() + (to_remove - still) == given_positions(
                start,
            ).len(),
            done == removed || done < limit + group,
            still == to_remove ==> cells(puzzle@) == start,
            (still == to_remove && done == removed) || (to_remove >= group && removed < limit),
            attempts <= max_attempts,
            max_attempts == 0 ==> still == to_remove && done == removed,
            sure == removal_is_sure(
                start,
                cells(filled@),
                singles,
                mirrored,
                to_remove,
                max_attempts,
            ),
            sure ==> (still == to_remove && attempts == max_attempts) || still == 0,
        decreases attempts,
    {
        if attempts == 0 {
            return None;
        }
        attempts -= 1;
        let ghost before = cells(puzzle@);
        match pick_group(puzzle.as_slice(), rng, singles, mirrored, max_attempts) {
            Some(picks) => {
                proof {
                    if sure {
                        lemma_full_masking_is_the_grid(before, cells(filled@));
                        lemma_one_cell_is_forced(before, picks@);
                    }
                }
                if all_different(&picks) && try_remove(puzzle, filled, &picks) {
                    proof {
                        lemma_masked_is_masking(before, cells(filled@), picks@);
                        lemma_masked_distinct_given_count(before, picks@);
                        assert((kept + 1) * group == kept * group + group) by (nonlinear_arith);
                        kept = kept + 1;
                    }
                    still -= group;
                    done += group;
                }
            },
            None => {},
        }
    }
    proof {
        lemma_fundamental_div_mod_converse(to_remove - still, group as int, kept, 0);
    }
    Some((still, done))
}

/// Masks a filled grid until exactly `given_count` digits remain.
///
/// Cells are removed four at a time until 20 are gone, then two at a time
/// until 30 are gone, then one by one; a group is proposed only if its cells
/// are pairwise different, and a removal is kept only if the puzzle still
/// has exactly one completion. Every retry loop gives up after
/// `max_attempts` rounds, and `None` is returned if a phase did not reach its
/// end by then.
///
/// Whether the attempts suffice is for the random source to decide, except
/// where nothing is left to it: nothing is to be removed from 81 digits,
/// nothing can be removed without an attempt, and the first attempt to
/// remove a single cell from a valid grid succeeds.
pub fn mask_grid(grid: Vec<Vec<u8>>, given_count: usize, max_attempts: usize) -> (puzzle: Option<
    Vec<Vec<u8>>,
>)
    requires
        well_formed(cells(grid@)),
        is_full(cells(grid@)),
        MIN_GIVEN_COUNT <= given_count <= 81,
    ensures
        puzzle matches Some(p) ==> {
            &&& is_masking_of(cells(p@), cells(grid@))
            &&& completions(cells(p@)).finite()
            &&& completions(cells(p@)).len() == 1
            &&& given_positions(cells(p@)).len() == given_count
            &&& is_valid(cells(grid@)) ==> is_valid(cells(p@)) && completions(cells(p@))
                == set![cells(grid@)]
        },
        given_count == 81 ==> puzzle is Some && cells(puzzle->0@) == cells(grid@),
        given_count < 81 && max_attempts == 0 ==> puzzle is None,
        given_count == 80 && max_attempts > 0 && is_valid(cells(grid@)) ==> puzzle is Some,
{
    let ghost g = cells(grid@);
    let mut rng = thread_rng();
    let mut puzzle = clone_grid(grid.as_slice());
    proof {
        lemma_full_grid_completions(g);
        lemma_full_grid_given_count(g);
    }
    let total: usize = 81 - given_count;
    assert(group_size(2, true) == 4 && group_size(1, true) == 2 && group_size(1, false) == 1);
    let (after_quads, removed) = match run_phase(
        &mut puzzle,
        grid.as_slice(),
        &mut rng,
        2,
        true,
        QUAD_PHASE_LIMIT,
        total,
        0,
        max_attempts,
    ) {
        Some(left) => left,
        None => {
            return None;
        },
    };
    let (after_pairs, removed) = match run_phase(
        &mut puzzle,
        grid.as_slice(),
        &mut rng,
        1,
        true,
        PAIR_PHASE_LIMIT,
        after_quads,
        removed,
        max_attempts,
    ) {
        Some(left) => left,
        None => {
            return None;
        },
    };
    let (after_singles, _) = match run_phase(
        &mut puzzle,
        grid.as_slice(),
        &mut rng,
        1,
        false,
        81,
        after_pairs,
        removed,
        max_attempts,
    ) {
        Some(left) => left,
        None => {
            return None;
        },
    };
    assert(after_singles == 0);
    proof {
        if is_valid(g) {
            lemma_masking_stays_valid(cells(puzzle@), g);
            lemma_masking_keeps_solution(cells(puzzle@), g);
            lemma_single_completion(cells(puzzle@), g);
        }
    }
    Some(puzzle)
}

/// Why a request to mask a grid was turned down.
#[derive(Debug, Clone, Copy, PartialEq, Eq, Structural)]
pub enum MaskError {
    /// Fewer digits were asked for than a puzzle with one completion can
    /// show, or more than the board holds.
    GivenCountOutOfRange,
    /// The attempts ran out before the puzzle was down to the digits asked
    /// for.
    AttemptsExhausted,
}

/// Masks a filled grid after testing the request.
///
/// A request for fewer than 17 or for more than 81 digits is turned down
/// before any cell is drawn or emptied; every other request is handed to
/// [`mask_grid`].
pub fn try_mask_grid(grid: Vec<Vec<u8>>, given_count: usize, max_attempts: usize) -> (masked: Result<
    Vec<Vec<u8>>,
    MaskError,
>)
    requires
        well_formed(cells(grid@)),
        is_full(cells(grid@)),
    ensures
        masked matches Err(MaskError::GivenCountOutOfRange) <==> given_count < MIN_GIVEN_COUNT
            || given_count > 81,
        masked matches Err(MaskError::AttemptsExhausted) ==> given_count < 81,
        masked matches Ok(p) ==> {
            &&& is_masking_of(cells(p@), cells(grid@))
            &&& completions(cells(p@)).finite()
            &&& completions(cells(p@)).len() == 1
            &&& given_positions(cells(p@)).len() == given_count
            &&& is_valid(cells(grid@)) ==> is_valid(cells(p@)) && completions(cells(p@))
                == set![cells(grid@)]
        },
        given_count == 81 ==> masked is Ok && cells(masked->Ok_0@) == cells(grid@),
        MIN_GIVEN_COUNT <= given_count < 81 && max_attempts == 0 ==> masked matches Err(
            MaskError::AttemptsExhausted,
        ),
        given_count == 80 && max_attempts > 0 && is_valid(cells(grid@)) ==> masked is Ok,
{
    if given_count < MIN_GIVEN_COUNT || given_count > 81 {
        return Err(MaskError::GivenCountOutOfRange);
    }
    match mask_grid(grid, given_count, max_attempts) {
        Some(puzzle) => Ok(puzzle),
        None => Err(MaskError::AttemptsExhausted),
    }
}

} // verus!
