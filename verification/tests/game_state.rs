use sudoku::actions::Action;
use sudoku::game_state::{
    digit_key_of, key_from_event, keybind_from_event, move_focus, Cell, GameState,
};
use sudoku::generation::GenerationError;
use sudoku::key::Key;
use sudoku::keybinds::{Keybind, KeybindManager};
use sudoku::solver::solution_count;

const CONFIG: &str = "Up = MoveRow(-1, true)\nDown = MoveRow(1, true)\nLeft = MoveCol(-1, false)\n\
Right = MoveCol(1, false)\nj = MoveRow(20, false)\nk = MoveRow(-20, false)\nl = MoveCol(20, true)\n\
1 = WriteCell(1)\n2 = WriteCell(2)\nS-1 = SetCandidate(1)\nS-9 = SetCandidate(9)\n\
C-1 = RemoveCandidate(1)\nA-1 = ToggleCandidate(1)\nx = ClearCell()\nc = CycleColor()\n\
C-c = ClearAllColors()";

fn new_game() -> GameState {
    let table = KeybindManager::with_config(CONFIG).ok().expect("the configuration is sound");
    GameState::with_keybind_manager(table)
}

fn solved() -> Vec<Vec<u8>> {
    vec![
        vec![5, 3, 4, 6, 7, 8, 9, 1, 2],
        vec![6, 7, 2, 1, 9, 5, 3, 4, 8],
        vec![1, 9, 8, 3, 4, 2, 5, 6, 7],
        vec![8, 5, 9, 7, 6, 1, 4, 2, 3],
        vec![4, 2, 6, 8, 5, 3, 7, 9, 1],
        vec![7, 1, 3, 9, 2, 4, 8, 5, 6],
        vec![9, 6, 1, 5, 3, 7, 2, 8, 4],
        vec![2, 8, 7, 4, 1, 9, 6, 3, 5],
        vec![3, 4, 5, 2, 8, 6, 1, 7, 9],
    ]
}

fn press(game: &mut GameState, key: Key, modifier: Option<Key>) {
    game.press(Keybind { key, modifier });
    game.update();
}

fn marks(list: &[usize]) -> [bool; 9] {
    let mut marks = [false; 9];
    for &i in list {
        marks[i] = true;
    }
    marks
}

#[test]
fn blank_cell() {
    let cell = Cell::new();
    assert_eq!(cell.digit, None);
    assert_eq!(cell.candidates, [false; 9]);
    assert!(!cell.is_given);
    let other = Cell::default();
    assert_eq!(other.digit, None);
    assert_eq!(other.candidates, [false; 9]);
    assert!(!other.is_given);
}

#[test]
fn clearing_candidates_keeps_the_rest() {
    let mut cell = Cell { digit: Some(4), candidates: marks(&[0, 3, 8]), is_given: true };
    cell.clear_candidates();
    assert_eq!(cell.digit, Some(4));
    assert_eq!(cell.candidates, [false; 9]);
    assert!(cell.is_given);
}

#[test]
fn puzzle_entries_become_cells() {
    let empty = Cell::from_puzzle(0);
    assert_eq!((empty.digit, empty.candidates, empty.is_given), (None, [false; 9], false));
    let given = Cell::from_puzzle(7);
    assert_eq!((given.digit, given.candidates, given.is_given), (Some(7), [false; 9], true));
}

#[test]
fn new_game_is_empty() {
    let game = new_game();
    assert_eq!(game.focused_cell_coord(), (0, 0));
    assert_eq!(game.highlighted_digit(), None);
    assert!(game.show_errors());
    assert_eq!(game.peek_last_key(), None);
    assert_eq!(game.grid().len(), 9);
    for r in 0..9 {
        assert_eq!(game.grid()[r].len(), 9);
        for c in 0..9 {
            let cell = game.grid()[r][c];
            assert_eq!((cell.digit, cell.candidates, cell.is_given), (None, [false; 9], false));
            assert_eq!(game.expected_value(r, c), 0);
        }
    }
}

#[test]
fn last_key_is_used_once() {
    let mut game = new_game();
    let key = Keybind { key: Key::Q, modifier: Some(Key::Shift) };
    game.press(key);
    assert_eq!(game.peek_last_key(), Some(key));
    assert_eq!(game.peek_last_key(), Some(key));
    assert_eq!(game.consume_last_key(), Some(key));
    assert_eq!(game.peek_last_key(), None);
    assert_eq!(game.consume_last_key(), None);
}

#[test]
fn moves_shift_the_focus() {
    assert_eq!(move_focus(0, 1, true), 1);
    assert_eq!(move_focus(0, -1, true), 0);
    assert_eq!(move_focus(0, -1, false), 0);
    assert_eq!(move_focus(8, 1, true), 8);
    assert_eq!(move_focus(8, 1, false), 8);
    assert_eq!(move_focus(4, 3, true), 7);
    assert_eq!(move_focus(4, 5, true), 4);
    assert_eq!(move_focus(4, 5, false), 8);
    assert_eq!(move_focus(4, -5, true), 4);
    assert_eq!(move_focus(4, -5, false), 0);
    assert_eq!(move_focus(8, 127, false), 8);
    assert_eq!(move_focus(8, 127, true), 8);
    assert_eq!(move_focus(0, -128, false), 0);
    assert_eq!(move_focus(3, 0, true), 3);
}

#[test]
fn bound_keys_move_the_focus() {
    let mut game = new_game();
    press(&mut game, Key::ArrowDown, None);
    press(&mut game, Key::ArrowDown, None);
    press(&mut game, Key::ArrowRight, None);
    assert_eq!(game.focused_cell_coord(), (2, 1));
    press(&mut game, Key::ArrowUp, None);
    press(&mut game, Key::ArrowLeft, None);
    press(&mut game, Key::ArrowLeft, None);
    assert_eq!(game.focused_cell_coord(), (1, 0));
    press(&mut game, Key::J, None);
    assert_eq!(game.focused_cell_coord(), (8, 0));
    press(&mut game, Key::L, None);
    assert_eq!(game.focused_cell_coord(), (8, 0));
    press(&mut game, Key::K, None);
    assert_eq!(game.focused_cell_coord(), (0, 0));
    press(&mut game, Key::ArrowUp, None);
    assert_eq!(game.focused_cell_coord(), (0, 0));
}

#[test]
fn unbound_keys_do_nothing_but_are_used_up() {
    let mut game = new_game();
    game.press(Keybind { key: Key::Z, modifier: None });
    game.update();
    assert_eq!(game.peek_last_key(), None);
    assert_eq!(game.focused_cell_coord(), (0, 0));
    assert_eq!(game.get_focused_cell().digit, None);
    game.update();
    assert_eq!(game.focused_cell_coord(), (0, 0));
}

#[test]
fn writing_and_clearing() {
    let mut game = new_game();
    press(&mut game, Key::One, Some(Key::Shift));
    assert_eq!(game.get_focused_cell().candidates, marks(&[0]));
    press(&mut game, Key::One, None);
    assert_eq!(game.get_focused_cell().digit, Some(1));
    assert_eq!(game.get_focused_cell().candidates, [false; 9]);
    assert!(!game.get_focused_cell().is_given);
    press(&mut game, Key::Two, None);
    assert_eq!(game.get_focused_cell().digit, Some(2));
    press(&mut game, Key::One, Some(Key::Shift));
    assert_eq!(game.get_focused_cell().candidates, [false; 9]);
    press(&mut game, Key::X, None);
    assert_eq!(game.get_focused_cell().digit, None);
    assert_eq!(game.grid()[0][1].digit, None);
    press(&mut game, Key::ArrowRight, None);
    assert_eq!(game.get_focused_cell().digit, None);
}

#[test]
fn candidates_are_marked_and_unmarked() {
    let mut game = new_game();
    press(&mut game, Key::One, Some(Key::Shift));
    press(&mut game, Key::Nine, Some(Key::Shift));
    assert_eq!(game.get_focused_cell().candidates, marks(&[0, 8]));
    press(&mut game, Key::One, Some(Key::Shift));
    assert_eq!(game.get_focused_cell().candidates, marks(&[0, 8]));
    press(&mut game, Key::One, Some(Key::Control));
    assert_eq!(game.get_focused_cell().candidates, marks(&[8]));
    press(&mut game, Key::One, Some(Key::Control));
    assert_eq!(game.get_focused_cell().candidates, marks(&[8]));
    press(&mut game, Key::One, Some(Key::Alt));
    assert_eq!(game.get_focused_cell().candidates, marks(&[0, 8]));
    press(&mut game, Key::One, Some(Key::Meta));
    assert_eq!(game.get_focused_cell().candidates, marks(&[8]));
    press(&mut game, Key::X, None);
    assert_eq!(game.get_focused_cell().candidates, marks(&[8]));
    assert_eq!(game.get_focused_cell().digit, None);
}

#[test]
fn colour_actions_change_nothing() {
    let mut game = new_game();
    press(&mut game, Key::One, None);
    press(&mut game, Key::C, None);
    press(&mut game, Key::C, Some(Key::Control));
    game.apply(Action::CycleColor);
    game.apply(Action::ClearAllColors);
    assert_eq!(game.focused_cell_coord(), (0, 0));
    assert_eq!(game.get_focused_cell().digit, Some(1));
    assert_eq!(game.highlighted_digit(), None);
}

#[test]
fn given_cells_cannot_be_changed() {
    let mut game = new_game();
    let mut puzzle = solved();
    puzzle[0][1] = 0;
    game.load(solved(), &puzzle);
    assert_eq!(game.expected_value(0, 1), 3);
    assert_eq!(game.expected_value(8, 8), 9);
    let cell = *game.get_focused_cell();
    assert_eq!((cell.digit, cell.candidates, cell.is_given), (Some(5), [false; 9], true));
    press(&mut game, Key::One, None);
    press(&mut game, Key::X, None);
    press(&mut game, Key::One, Some(Key::Shift));
    press(&mut game, Key::One, Some(Key::Alt));
    let cell = *game.get_focused_cell();
    assert_eq!((cell.digit, cell.candidates, cell.is_given), (Some(5), [false; 9], true));
    press(&mut game, Key::ArrowRight, None);
    let cell = *game.get_focused_cell();
    assert_eq!((cell.digit, cell.candidates, cell.is_given), (None, [false; 9], false));
    press(&mut game, Key::One, Some(Key::Shift));
    press(&mut game, Key::Two, None);
    let cell = *game.get_focused_cell();
    assert_eq!((cell.digit, cell.candidates, cell.is_given), (Some(2), [false; 9], false));
}

#[test]
fn loading_keeps_focus_and_key() {
    let mut game = new_game();
    press(&mut game, Key::ArrowDown, None);
    let key = Keybind { key: Key::Q, modifier: None };
    game.press(key);
    game.load(solved(), &solved());
    assert_eq!(game.focused_cell_coord(), (1, 0));
    assert_eq!(game.peek_last_key(), Some(key));
    assert!(game.show_errors());
}

#[test]
fn generated_game_shows_a_puzzle_of_its_solution() {
    let mut game = new_game();
    assert_eq!(game.generate_grid(String::from("seed"), 50, 100_000), Ok(()));
    let mut puzzle = vec![vec![0u8; 9]; 9];
    let mut given = 0;
    for r in 0..9 {
        for c in 0..9 {
            let cell = game.grid()[r][c];
            assert_eq!(cell.candidates, [false; 9]);
            match cell.digit {
                Some(d) => {
                    assert!(cell.is_given);
                    assert_eq!(d, game.expected_value(r, c));
                    puzzle[r][c] = d;
                    given += 1;
                }
                None => assert!(!cell.is_given),
            }
            assert!((1..=9).contains(&game.expected_value(r, c)));
        }
    }
    assert_eq!(given, 50);
    assert_eq!(solution_count(puzzle), 1);
}

#[test]
fn generated_game_with_every_digit_shows_the_solution() {
    let mut game = new_game();
    assert_eq!(game.generate_grid(String::new(), 81, 0), Ok(()));
    for r in 0..9 {
        for c in 0..9 {
            let cell = game.grid()[r][c];
            assert_eq!(cell.digit, Some(game.expected_value(r, c)));
            assert!(cell.is_given);
            assert_eq!(cell.candidates, [false; 9]);
        }
    }
}

#[test]
fn failed_generation_leaves_the_game() {
    let mut game = new_game();
    game.load(solved(), &solved());
    assert_eq!(
        game.generate_grid(String::new(), 30, 0),
        Err(GenerationError::AttemptsExhausted)
    );
    assert_eq!(game.expected_value(0, 0), 5);
    assert_eq!(game.get_focused_cell().digit, Some(5));
}

#[test]
fn events_name_the_key_pressed() {
    let event = |key: &str, code: &str, shift: bool, ctrl: bool, alt: bool, meta: bool| {
        keybind_from_event(String::from(key), String::from(code), shift, ctrl, alt, meta)
    };
    let plain = |key| Some(Keybind { key, modifier: None });
    let with = |modifier, key| Some(Keybind { key, modifier: Some(modifier) });
    assert_eq!(event("a", "KeyA", false, false, false, false), plain(Key::A));
    assert_eq!(event("A", "KeyA", true, false, false, false), with(Key::Shift, Key::A));
    assert_eq!(event("5", "Digit5", false, false, false, false), plain(Key::Five));
    assert_eq!(event("%", "Digit5", true, false, false, false), with(Key::Shift, Key::Five));
    assert_eq!(event("%", "Digit5", false, false, false, false), plain(Key::Zero));
    assert_eq!(event("End", "Numpad1", true, false, false, false), with(Key::Shift, Key::One));
    assert_eq!(event("+", "NumpadAdd", true, false, false, false), with(Key::Shift, Key::Zero));
    assert_eq!(event("a", "NumpadAdd", true, false, false, false), with(Key::Shift, Key::A));
    assert_eq!(event("x", "KeyX5", true, false, false, false), with(Key::Shift, Key::X));
    assert_eq!(event("x", "KeyX", false, true, false, false), with(Key::Control, Key::X));
    assert_eq!(event("x", "KeyX", false, false, true, false), with(Key::Alt, Key::X));
    assert_eq!(event("x", "KeyX", false, false, false, true), with(Key::Meta, Key::X));
    assert_eq!(event("x", "KeyX", true, true, true, true), with(Key::Shift, Key::X));
    assert_eq!(event("x", "KeyX", false, true, true, true), with(Key::Control, Key::X));
    assert_eq!(event("x", "KeyX", false, false, true, true), with(Key::Alt, Key::X));
    assert_eq!(event("F5", "F5", false, false, false, false), plain(Key::Zero));
    assert_eq!(event("Shift", "ShiftLeft", true, false, false, false), None);
    assert_eq!(event("Control", "ControlLeft", false, true, false, false), None);
    assert_eq!(event("Alt", "AltLeft", false, false, true, false), None);
    assert_eq!(event("Meta", "MetaLeft", false, false, false, true), None);
    assert_eq!(event("Escape", "Escape", false, false, false, false), plain(Key::Escape));
}

#[test]
fn event_helpers() {
    assert_eq!(key_from_event(String::from("q")), Key::Q);
    assert_eq!(key_from_event(String::from("F5")), Key::Zero);
    assert_eq!(key_from_event(String::from("Up")), Key::Zero);
    let digits = [
        Key::Zero, Key::One, Key::Two, Key::Three, Key::Four, Key::Five, Key::Six, Key::Seven,
        Key::Eight, Key::Nine,
    ];
    for (i, key) in digits.iter().enumerate() {
        assert_eq!(digit_key_of((b'0' + i as u8) as char), Some(*key));
    }
    assert_eq!(digit_key_of('a'), None);
    assert_eq!(digit_key_of('\u{0663}'), None);
}

#[test]
fn key_events_reach_the_game() {
    let mut game = new_game();
    game.key_down(String::from("ArrowDown"), String::from("ArrowDown"), false, false, false, false);
    assert_eq!(game.peek_last_key(), Some(Keybind { key: Key::ArrowDown, modifier: None }));
    game.key_down(String::from("Shift"), String::from("ShiftLeft"), true, false, false, false);
    assert_eq!(game.peek_last_key(), Some(Keybind { key: Key::ArrowDown, modifier: None }));
    game.key_down(String::from("!"), String::from("Digit1"), true, false, false, false);
    assert_eq!(game.peek_last_key(), Some(Keybind { key: Key::One, modifier: Some(Key::Shift) }));
    game.update();
    assert_eq!(game.get_focused_cell().candidates, marks(&[0]));
}

#[test]
fn bound_control_keys_block_the_browser() {
    let game = new_game();
    assert!(game.blocks_default(String::from("c"), true));
    assert!(game.blocks_default(String::from("1"), true));
    assert!(!game.blocks_default(String::from("c"), false));
    assert!(!game.blocks_default(String::from("x"), true));
    assert!(!game.blocks_default(String::from("F5"), true));
}
