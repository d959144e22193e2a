//! The state of a game in progress: the board the player sees, the solution
//! behind it, the focused cell, and what each action does to them.

use vstd::prelude::*;
use crate::actions::Action;
use crate::completion::{completions, given_positions, is_solution, is_valid};
use crate::generation::{generate_grid, GenerationError};
use crate::generator::some_seed_is_unfillable;
use crate::grid::{cell_at, cells, in_bounds, well_formed};
use crate::key::{key_from_js, Key};
use crate::keybinds::{Keybind, KeybindManager};
use crate::masker::{is_masking_of, MIN_GIVEN_COUNT};
use crate::text::{chars_of, starts_with};
use crate::units::each_digit_once;

verus! {

/// What a cell holds.
pub struct CellView {
    /// The digit in the cell, if any.
    pub digit: Option<u8>,
    /// The pencilled digits: entry `i` stands for digit `i + 1`.
    pub candidates: Seq<bool>,
    /// The digit was given by the puzzle.
    pub is_given: bool,
}

/// One cell of the board as the player sees it.
#[derive(Clone, Copy)]
pub struct Cell {
    /// The digit in the cell, if any.
    pub digit: Option<u8>,
    /// The digits the player has pencilled in: entry `i` stands for digit
    /// `i + 1`.
    pub candidates: [bool; 9],
    /// The digit was given by the puzzle and cannot be changed.
    pub is_given: bool,
}

impl View for Cell {
    type V = CellView;

    open spec fn view(&self) -> CellView {
        CellView { digit: self.digit, candidates: self.candidates@, is_given: self.is_given }
    }
}

/// Nine unmarked candidates.
pub open spec fn no_candidates() -> Seq<bool> {
    Seq::new(9, |i: int| false)
}

/// The empty cell without candidates.
pub open spec fn blank_cell() -> CellView {
    CellView { digit: None, candidates: no_candidates(), is_given: false }
}

/// The cell that shows entry `n` of a puzzle: empty for `0`, else a given
/// digit.
pub open spec fn puzzle_cell(n: u8) -> CellView {
    if n == 0 {
        blank_cell()
    } else {
        CellView { digit: Some(n), candidates: no_candidates(), is_given: true }
    }
}

/// The board that shows a puzzle.
pub open spec fn puzzle_board(puzzle: Seq<Seq<u8>>) -> Seq<Seq<CellView>> {
    Seq::new(9, |r: int| Seq::new(9, |c: int| puzzle_cell(puzzle[r][c])))
}

impl Default for Cell {
    fn default() -> (cell: Self)
        ensures
            cell@ == blank_cell(),
    {
        Cell::new()
    }
}

impl Cell {
    /// An empty cell without candidates.
    pub fn new() -> (cell: Self)
        ensures
            cell@ == blank_cell(),
    {
        let cell = Cell { digit: None, candidates: [false; 9], is_given: false };
        assert(cell.candidates@ =~= no_candidates());
        cell
    }

    /// Removes every candidate.
    pub fn clear_candidates(&mut self)
        ensures
            final(self)@ == (CellView { candidates: no_candidates(), ..old(self)@ }),
    {
        self.candidates = [false; 9];
        assert(self.candidates@ =~= no_candidates());
    }

    /// The cell that shows entry `n` of a puzzle.
    pub fn from_puzzle(n: u8) -> (cell: Self)
        ensures
            cell@ == puzzle_cell(n),
    {
        let cell = if n == 0 {
            Cell { digit: None, candidates: [false; 9], is_given: false }
        } else {
            Cell { digit: Some(n), candidates: [false; 9], is_given: true }
        };
        assert(cell.candidates@ =~= no_candidates());
        cell
    }
}

/// What a game in progress holds.
pub struct GameView {
    /// The table of key bindings.
    pub binds: Map<u64, Action>,
    /// The last key pressed and not yet acted on.
    pub last_key: Option<Keybind>,
    /// The board, nine rows of nine cells.
    pub board: Seq<Seq<CellView>>,
    /// The solution behind the board, nine rows of nine digits.
    pub solution: Seq<Seq<u8>>,
    /// The row of the focused cell.
    pub focused_row: int,
    /// The column of the focused cell.
    pub focused_col: int,
    /// The digit whose occurrences are highlighted, if any.
    pub highlighted_digit: Option<u8>,
    /// Wrong digits are shown as such.
    pub show_errors: bool,
}

impl GameView {
    /// The board and the solution are nine by nine, every cell has nine
    /// candidate marks, and the focus lies on the board.
    pub open spec fn is_well_formed(self) -> bool {
        &&& self.board.len() == 9
        &&& forall|r: int| 0 <= r < 9 ==> (#[trigger] self.board[r]).len() == 9
        &&& forall|r: int, c: int|
            in_bounds(r, c) ==> (#[trigger] self.board[r][c]).candidates.len() == 9
        &&& well_formed(self.solution)
        &&& in_bounds(self.focused_row, self.focused_col)
    }

    /// The focused cell.
    pub open spec fn focused(self) -> CellView {
        self.board[self.focused_row][self.focused_col]
    }

    /// The game with the focused cell replaced.
    pub open spec fn with_focused(self, cell: CellView) -> GameView {
        GameView {
            board: self.board.update(
                self.focused_row,
                self.board[self.focused_row].update(self.focused_col, cell),
            ),
            ..self
        }
    }

    /// The focused cell can take candidates: it is not given and holds no
    /// digit.
    pub open spec fn takes_candidates(self) -> bool {
        !self.focused().is_given && self.focused().digit is None
    }

    /// The game with candidate `n` of the focused cell set to `mark`, if the
    /// cell takes candidates.
    pub open spec fn with_candidate(self, n: u8, mark: bool) -> GameView {
        if self.takes_candidates() {
            self.with_focused(
                CellView { candidates: self.focused().candidates.update(n - 1, mark), ..self.focused() },
            )
        } else {
            self
        }
    }

    /// The game after an action.
    pub open spec fn after(self, action: Action) -> GameView {
        match action {
            Action::MoveRow(step, safe) => GameView {
                focused_row: moved(self.focused_row, step as int, safe),
                ..self
            },
            Action::MoveCol(step, safe) => GameView {
                focused_col: moved(self.focused_col, step as int, safe),
                ..self
            },
            Action::WriteCell(n) => if self.focused().is_given {
                self
            } else {
                self.with_focused(
                    CellView { digit: Some(n), candidates: no_candidates(), is_given: false },
                )
            },
            Action::ClearCell => if self.focused().is_given {
                self
            } else {
                self.with_focused(CellView { digit: None, ..self.focused() })
            },
            Action::SetCandidate(n) => self.with_candidate(n, true),
            Action::RemoveCandidate(n) => self.with_candidate(n, false),
            Action::ToggleCandidate(n) => self.with_candidate(n, !self.focused().candidates[n - 1]),
            Action::CycleColor => self,
            Action::ClearAllColors => self,
        }
    }

    /// The game after acting on the last key: the key is used up, and the
    /// action it is bound to, if any, is done.
    pub open spec fn updated(self) -> GameView {
        match self.last_key {
            None => self,
            Some(keybind) => {
                let used = GameView { last_key: None, ..self };
                if self.binds.contains_key(keybind.code_spec()) {
                    used.after(self.binds[keybind.code_spec()])
                } else {
                    used
                }
            },
        }
    }
}

/// Where a move by `step` from `position` ends. A safe move that would leave
/// the board is not made; any other move stops at the edge.
pub open spec fn moved(position: int, step: int, safe: bool) -> int {
    let target = position + step;
    if 0 <= target < 9 {
        target
    } else if safe {
        position
    } else if target < 0 {
        0
    } else {
        8
    }
}

/// The digit key that types the character `c`, if `c` is a digit.
pub open spec fn digit_key(c: char) -> Option<Key> {
    if c == '0' {
        Some(Key::Zero)
    } else if c == '1' {
        Some(Key::One)
    } else if c == '2' {
        Some(Key::Two)
    } else if c == '3' {
        Some(Key::Three)
    } else if c == '4' {
        Some(Key::Four)
    } else if c == '5' {
        Some(Key::Five)
    } else if c == '6' {
        Some(Key::Six)
    } else if c == '7' {
        Some(Key::Seven)
    } else if c == '8' {
        Some(Key::Eight)
    } else if c == '9' {
        Some(Key::Nine)
    } else {
        None
    }
}

/// The key name is read as a keyboard-event name; a name that is none
/// counts as the key `0`.
pub open spec fn key_or_zero(key: Seq<char>) -> Key {
    match key_from_js(key) {
        Some(k) => k,
        None => Key::Zero,
    }
}

/// The key that a keyboard event is about. With Shift held, the key value
/// of a digit key is the character above the digit, so the digit is taken
/// from the end of the physical key code (`Digit5`, `Numpad5`) instead.
pub open spec fn event_key(key: Seq<char>, code: Seq<char>, shift: bool) -> Key {
    if shift && ("Digit"@.is_prefix_of(code) || "Numpad"@.is_prefix_of(code)) && code.len() > 0
        && digit_key(code.last()) is Some {
        digit_key(code.last())->0
    } else {
        key_or_zero(key)
    }
}

/// The modifier that a keyboard event reports: the first that is held of
/// Shift, Control, Alt and Meta.
pub open spec fn event_modifier(shift: bool, ctrl: bool, alt: bool, meta: bool) -> Option<Key> {
    if shift {
        Some(Key::Shift)
    } else if ctrl {
        Some(Key::Control)
    } else if alt {
        Some(Key::Alt)
    } else if meta {
        Some(Key::Meta)
    } else {
        None
    }
}

/// The key press that a keyboard event reports, if any: the press of a
/// modifier key by itself is none.
pub open spec fn event_keybind(
    key: Seq<char>,
    code: Seq<char>,
    shift: bool,
    ctrl: bool,
    alt: bool,
    meta: bool,
) -> Option<Keybind> {
    let pressed = event_key(key, code, shift);
    if pressed is Shift || pressed is Control || pressed is Alt || pressed is Meta {
        None
    } else {
        Some(Keybind { key: pressed, modifier: event_modifier(shift, ctrl, alt, meta) })
    }
}

/// Reads the key name of a keyboard event; a name that is none counts as
/// the key `0`.
pub fn key_from_event(key: String) -> (pressed: Key)
    ensures
        pressed == key_or_zero(key@),
{
    match Key::try_from_js(key) {
        Ok(k) => k,
        Err(_) => Key::Zero,
    }
}

/// The digit key that types the character `c`, if `c` is a digit.
pub fn digit_key_of(c: char) -> (key: Option<Key>)
    ensures
        key == digit_key(c),
{
    if c == '0' {
        Some(Key::Zero)
    } else if c == '1' {
        Some(Key::One)
    } else if c == '2' {
        Some(Key::Two)
    } else if c == '3' {
        Some(Key::Three)
    } else if c == '4' {
        Some(Key::Four)
    } else if c == '5' {
        Some(Key::Five)
    } else if c == '6' {
        Some(Key::Six)
    } else if c == '7' {
        Some(Key::Seven)
    } else if c == '8' {
        Some(Key::Eight)
    } else if c == '9' {
        Some(Key::Nine)
    } else {
        None
    }
}

/// Reads the key press that a keyboard event reports from the event's key
/// value, its physical key code and its four modifier flags.
pub fn keybind_from_event(
    key: String,
    code: String,
    shift: bool,
    ctrl: bool,
    alt: bool,
    meta: bool,
) -> (pressed: Option<Keybind>)
    ensures
        pressed == event_keybind(key@, code@, shift, ctrl, alt, meta),
{
    let physical = chars_of(code.as_str());
    let mut found: Option<Key> = None;
    if shift && (starts_with(&physical, "Digit") || starts_with(&physical, "Numpad"))
        && physical.len() > 0 {
        found = digit_key_of(physical[physical.len() - 1]);
    }
    let pressed = match found {
        Some(k) => k,
        None => key_from_event(key),
    };
    if pressed.is_modifier() {
        return None;
    }
    let modifier = if shift {
        Some(Key::Shift)
    } else if ctrl {
        Some(Key::Control)
    } else if alt {
        Some(Key::Alt)
    } else if meta {
        Some(Key::Meta)
    } else {
        None
    };
    Some(Keybind { key: pressed, modifier })
}

/// Where a move by `step` from `position` ends.
pub fn move_focus(position: u8, step: i8, safe: bool) -> (target: u8)
    requires
        position < 9,
    ensures
        target == moved(position as int, step as int, safe),
        target < 9,
{
    let target: i16 = position as i16 + step as i16;
    if 0 <= target && target < 9 {
        target as u8
    } else if safe {
        position
    } else if target < 0 {
        0
    } else {
        8
    }
}

/// A game in progress.
pub struct GameState {
    kb_manager: KeybindManager,
    last_key: Option<Keybind>,
    grid: Vec<Vec<Cell>>,
    solution: Vec<Vec<u8>>,
    focused_row: u8,
    focused_col: u8,
    highlighted_digit: Option<u8>,
    show_errors: bool,
}

/// The mathematical content of a board held as rows of cells.
pub open spec fn board_of(grid: Seq<Vec<Cell>>) -> Seq<Seq<CellView>> {
    Seq::new(grid.len(), |r: int| Seq::new(grid[r]@.len(), |c: int| grid[r]@[c]@))
}

impl View for GameState {
    type V = GameView;

    closed spec fn view(&self) -> GameView {
        GameView {
            binds: self.kb_manager@,
            last_key: self.last_key,
            board: board_of(self.grid@),
            solution: cells(self.solution@),
            focused_row: self.focused_row as int,
            focused_col: self.focused_col as int,
            highlighted_digit: self.highlighted_digit,
            show_errors: self.show_errors,
        }
    }
}

impl GameState {
    /// The board and the solution are nine by nine and the focus lies on
    /// the board. Every game that this module hands out is well formed, and
    /// every operation keeps it so.
    pub closed spec fn is_well_formed(&self) -> bool {
        &&& self.grid@.len() == 9
        &&& forall|r: int| 0 <= r < 9 ==> (#[trigger] self.grid@[r])@.len() == 9
        &&& well_formed(cells(self.solution@))
        &&& self.focused_row < 9
        &&& self.focused_col < 9
    }

    /// What a well-formed game holds is well formed.
    pub proof fn lemma_view_is_well_formed(&self)
        requires
            self.is_well_formed(),
        ensures
            self@.is_well_formed(),
    {
        assert forall|r: int, c: int| in_bounds(r, c) implies (#[trigger] self@.board[r][c]).candidates.len()
            == 9 by {
            assert(self.grid@[r]@.len() == 9);
        }
    }

    /// A new game with the given key bindings: an empty board, no solution
    /// yet, the focus in the top left corner, nothing highlighted, errors
    /// shown, and no key pressed.
    pub fn with_keybind_manager(kb_manager: KeybindManager) -> (game: Self)
        ensures
            game@.binds == kb_manager@,
            game@.last_key is None,
            game@.board == Seq::new(9, |r: int| Seq::new(9, |c: int| blank_cell())),
            game@.solution == Seq::new(9, |r: int| Seq::new(9, |c: int| 0u8)),
            game@.focused_row == 0,
            game@.focused_col == 0,
            game@.highlighted_digit is None,
            game@.show_errors,
            game.is_well_formed(),
    {
        let mut grid: Vec<Vec<Cell>> = Vec::new();
        let mut solution: Vec<Vec<u8>> = Vec::new();
        let mut r: usize = 0;
        while r < 9
            invariant
                r <= 9,
                grid@.len() == r,
                solution@.len() == r,
                forall|k: int| 0 <= k < r ==> (#[trigger] grid@[k])@.len() == 9,
                forall|k: int, c: int| 0 <= k < r && 0 <= c < 9 ==> (#[trigger] grid@[k]@[c])@ == blank_cell(),
                forall|k: int| 0 <= k < r ==> (#[trigger] solution@[k])@ == Seq::new(9, |c: int| 0u8),
            decreases 9 - r,
        {
            let mut cells_row: Vec<Cell> = Vec::new();
            let mut digits_row: Vec<u8> = Vec::new();
            let mut c: usize = 0;
            while c < 9
                invariant
                    c <= 9,
                    cells_row@.len() == c,
                    digits_row@.len() == c,
                    forall|k: int| 0 <= k < c ==> (#[trigger] cells_row@[k])@ == blank_cell(),
                    forall|k: int| 0 <= k < c ==> #[trigger] digits_row@[k] == 0u8,
                decreases 9 - c,
            {
                cells_row.push(Cell::new());
                digits_row.push(0);
                c += 1;
            }
            assert(digits_row@ =~= Seq::new(9, |c: int| 0u8));
            grid.push(cells_row);
            solution.push(digits_row);
            r += 1;
        }
        let game = GameState {
            kb_manager,
            last_key: None,
            grid,
            solution,
            focused_row: 0,
            focused_col: 0,
            highlighted_digit: None,
            show_errors: true,
        };
        assert(game@.solution =~= Seq::new(9, |r: int| Seq::new(9, |c: int| 0u8)));
        assert(game@.board =~= Seq::new(9, |r: int| Seq::new(9, |c: int| blank_cell()))) by {
            assert forall|r: int| 0 <= r < 9 implies #[trigger] game@.board[r] =~= Seq::new(
                9,
                |c: int| blank_cell(),
            ) by {}
        }
        game
    }

    /// The board.
    pub fn grid(&self) -> (grid: &Vec<Vec<Cell>>)
        ensures
            board_of(grid@) == self@.board,
    {
        &self.grid
    }

    /// The row and the column of the focused cell.
    pub fn focused_cell_coord(&self) -> (at: (u8, u8))
        requires
            self.is_well_formed(),
        ensures
            at.0 == self@.focused_row,
            at.1 == self@.focused_col,
            at.0 < 9,
            at.1 < 9,
    {
        (self.focused_row, self.focused_col)
    }

    /// The digit whose occurrences are highlighted, if any.
    pub fn highlighted_digit(&self) -> (digit: Option<u8>)
        ensures
            digit == self@.highlighted_digit,
    {
        self.highlighted_digit
    }

    /// Tells whether wrong digits are shown as such.
    pub fn show_errors(&self) -> (shown: bool)
        ensures
            shown == self@.show_errors,
    {
        self.show_errors
    }

    /// The digit that the solution holds at `(row, col)`.
    pub fn expected_value(&self, row: usize, col: usize) -> (digit: u8)
        requires
            self.is_well_formed(),
            row < 9,
            col < 9,
        ensures
            digit == self@.solution[row as int][col as int],
    {
        cell_at(self.solution.as_slice(), row, col)
    }

    /// The last key pressed and not yet acted on; it stays in place.
    pub fn peek_last_key(&self) -> (key: Option<Keybind>)
        ensures
            key == self@.last_key,
    {
        self.last_key
    }

    /// Takes the last key pressed; until another key is pressed there is
    /// none.
    pub fn consume_last_key(&mut self) -> (key: Option<Keybind>)
        requires
            old(self).is_well_formed(),
        ensures
            final(self).is_well_formed(),
            key == old(self)@.last_key,
            final(self)@ == (GameView { last_key: None, ..old(self)@ }),
    {
        let key = self.last_key;
        self.last_key = None;
        key
    }

    /// Notes a key press, in place of any that was not yet acted on.
    pub fn press(&mut self, keybind: Keybind)
        requires
            old(self).is_well_formed(),
        ensures
            final(self).is_well_formed(),
            final(self)@ == (GameView { last_key: Some(keybind), ..old(self)@ }),
    {
        self.last_key = Some(keybind);
    }

    /// Notes the key press that a keyboard event reports, if it reports
    /// one, in place of any that was not yet acted on.
    pub fn key_down(&mut self, key: String, code: String, shift: bool, ctrl: bool, alt: bool, meta: bool)
        requires
            old(self).is_well_formed(),
        ensures
            final(self).is_well_formed(),
            final(self)@ == match event_keybind(key@, code@, shift, ctrl, alt, meta) {
                Some(keybind) => GameView { last_key: Some(keybind), ..old(self)@ },
                None => old(self)@,
            },
    {
        match keybind_from_event(key, code, shift, ctrl, alt, meta) {
            Some(keybind) => {
                self.press(keybind);
            },
            None => {},
        }
    }

    /// Tells whether the browser's own handling of a key press must be
    /// suppressed: Control is held and the key is bound together with it.
    pub fn blocks_default(&self, key: String, ctrl: bool) -> (blocks: bool)
        ensures
            blocks == (ctrl && self@.binds.contains_key(
                (Keybind { key: key_or_zero(key@), modifier: Some(Key::Control) }).code_spec(),
            )),
    {
        if !ctrl {
            return false;
        }
        let keybind = Keybind { key: key_from_event(key), modifier: Some(Key::Control) };
        self.kb_manager.get_action(&keybind).is_some()
    }

    /// Replaces the focused cell.
    fn set_focused_cell(&mut self, cell: Cell)
        requires
            old(self).is_well_formed(),
        ensures
            final(self).is_well_formed(),
            final(self)@ == old(self)@.with_focused(cell@),
    {
        let row = self.focused_row as usize;
        let col = self.focused_col as usize;
        let ghost before = self@;
        self.grid[row][col] = cell;
        proof {
            let after = self@.board;
            let wanted = before.with_focused(cell@).board;
            assert forall|r: int| 0 <= r < 9 implies #[trigger] after[r] =~= wanted[r] by {
                if r != row {
                    assert(self.grid@[r] == old(self).grid@[r]);
                }
            }
            assert(after =~= wanted);
        }
    }

    /// Sets candidate `n` of the focused cell to `mark`, if the cell takes
    /// candidates.
    fn mark_candidate(&mut self, n: u8, mark: bool)
        requires
            old(self).is_well_formed(),
            1 <= n <= 9,
        ensures
            final(self).is_well_formed(),
            final(self)@ == old(self)@.with_candidate(n, mark),
    {
        let mut cell = *self.get_focused_cell();
        if cell.is_given || cell.digit.is_some() {
            return;
        }
        cell.candidates[(n - 1) as usize] = mark;
        self.set_focused_cell(cell);
    }

    /// Does an action.
    ///
    /// Moves shift the focus; writing and clearing change the focused cell
    /// unless it is given; candidates are marked only in a cell that is
    /// neither given nor filled. The colour actions leave the game as it is.
    pub fn apply(&mut self, action: Action)
        requires
            old(self).is_well_formed(),
            action.is_well_formed(),
        ensures
            final(self).is_well_formed(),
            final(self)@ == old(self)@.after(action),
    {
        match action {
            Action::MoveRow(step, safe) => {
                self.focused_row = move_focus(self.focused_row, step, safe);
            },
            Action::MoveCol(step, safe) => {
                self.focused_col = move_focus(self.focused_col, step, safe);
            },
            Action::WriteCell(n) => {
                if self.get_focused_cell().is_given {
                    return;
                }
                let mut cell = Cell::new();
                cell.digit = Some(n);
                self.set_focused_cell(cell);
            },
            Action::ClearCell => {
                let mut cell = *self.get_focused_cell();
                if cell.is_given {
                    return;
                }
                cell.digit = None;
                self.set_focused_cell(cell);
            },
            Action::SetCandidate(n) => {
                self.mark_candidate(n, true);
            },
            Action::RemoveCandidate(n) => {
                self.mark_candidate(n, false);
            },
            Action::ToggleCandidate(n) => {
                let marked = self.get_focused_cell().candidates[(n - 1) as usize];
                self.mark_candidate(n, !marked);
            },
            Action::CycleColor => {},
            Action::ClearAllColors => {},
        }
    }

    /// Acts on the last key pressed: the key is used up, and the action it
    /// is bound to, if any, is done.
    pub fn update(&mut self)
        requires
            old(self).is_well_formed(),
        ensures
            final(self).is_well_formed(),
            final(self)@ == old(self)@.updated(),
    {
        let keybind = match self.consume_last_key() {
            Some(keybind) => keybind,
            None => {
                return;
            },
        };
        let action = match self.kb_manager.get_action(&keybind) {
            Some(bound) => *bound,
            None => {
                return;
            },
        };
        self.apply(action);
    }

    /// Puts a puzzle on the board and its solution behind it: empty cells
    /// become blank, digits become given.
    pub fn load(&mut self, solution: Vec<Vec<u8>>, puzzle: &[Vec<u8>])
        requires
            old(self).is_well_formed(),
            well_formed(cells(solution@)),
            well_formed(cells(puzzle@)),
        ensures
            final(self).is_well_formed(),
            final(self)@ == (GameView {
                board: puzzle_board(cells(puzzle@)),
                solution: cells(solution@),
                ..old(self)@
            }),
    {
        let ghost p = cells(puzzle@);
        let mut grid: Vec<Vec<Cell>> = Vec::new();
        let mut r: usize = 0;
        while r < 9
            invariant
                r <= 9,
                p == cells(puzzle@),
                well_formed(p),
                grid@.len() == r,
                forall|k: int| 0 <= k < r ==> (#[trigger] grid@[k])@.len() == 9,
                forall|k: int, c: int|
                    0 <= k < r && 0 <= c < 9 ==> (#[trigger] grid@[k]@[c])@ == puzzle_cell(p[k][c]),
            decreases 9 - r,
        {
            let mut row: Vec<Cell> = Vec::new();
            let mut c: usize = 0;
            while c < 9
                invariant
                    r < 9,
                    c <= 9,
                    p == cells(puzzle@),
                    well_formed(p),
                    row@.len() == c,
                    forall|k: int| 0 <= k < c ==> (#[trigger] row@[k])@ == puzzle_cell(p[r as int][k]),
                decreases 9 - c,
            {
                row.push(Cell::from_puzzle(cell_at(puzzle, r, c)));
                c += 1;
            }
            grid.push(row);
            r += 1;
        }
        self.grid = grid;
        self.solution = solution;
        proof {
            let after = self@.board;
            let wanted = puzzle_board(p);
            assert forall|r: int| 0 <= r < 9 implies #[trigger] after[r] =~= wanted[r] by {}
            assert(after =~= wanted);
        }
    }

    /// Generates a puzzle that shows exactly `given_count` digits and puts
    /// it on the board, with its solution behind it. Where no puzzle is
    /// produced the game stays as it is.
    ///
    /// No puzzle is produced if the search cannot complete the seeded
    /// diagonal boxes, or if digits are to be removed and the masker runs
    /// out of attempts.
    pub fn generate_grid(&mut self, seed: String, given_count: usize, max_attempts: usize) -> (done:
        Result<(), GenerationError>)
        requires
            old(self).is_well_formed(),
            MIN_GIVEN_COUNT <= given_count <= 81,
        ensures
            final(self).is_well_formed(),
            match done {
                Ok(_) => {
                    &&& is_solution(final(self)@.solution)
                    &&& each_digit_once(final(self)@.solution)
                    &&& final(self)@ == (GameView {
                        board: final(self)@.board,
                        solution: final(self)@.solution,
                        ..old(self)@
                    })
                    &&& exists|puzzle: Seq<Seq<u8>>|
                        {
                            &&& final(self)@.board == #[trigger] puzzle_board(puzzle)
                            &&& is_masking_of(puzzle, final(self)@.solution)
                            &&& is_valid(puzzle)
                            &&& completions(puzzle) == set![final(self)@.solution]
                            &&& given_positions(puzzle).len() == given_count
                        }
                    &&& given_count == 81 ==> final(self)@.board == puzzle_board(
                        final(self)@.solution,
                    )
                },
                Err(GenerationError::Unfillable) => {
                    &&& final(self)@ == old(self)@
                    &&& some_seed_is_unfillable()
                },
                Err(GenerationError::AttemptsExhausted) => {
                    &&& final(self)@ == old(self)@
                    &&& given_count < 81
                },
            },
            given_count < 81 && max_attempts == 0 ==> done is Err,
    {
        match generate_grid(seed, given_count, max_attempts) {
            Ok((solution, puzzle)) => {
                self.load(solution, puzzle.as_slice());
                assert(self@.board == puzzle_board(cells(puzzle@)));
                Ok(())
            },
            Err(e) => Err(e),
        }
    }

    /// The focused cell.
    pub fn get_focused_cell(&self) -> (cell: &Cell)
        requires
            self.is_well_formed(),
        ensures
            cell@ == self@.focused(),
    {
        &self.grid[self.focused_row as usize][self.focused_col as usize]
    }
}

} // verus!
