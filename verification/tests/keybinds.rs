use sudoku::actions::Action;
use sudoku::key::{Key, KeyParseError};
use sudoku::keybinds::{
    read_line, Keybind, KeybindManager, KeybindManagerError, KeybindParsingError, LineEntry,
};

fn bind(text: &str) -> Result<Keybind, KeybindParsingError> {
    Keybind::try_from(String::from(text))
}

fn plain(key: Key) -> Keybind {
    Keybind { key, modifier: None }
}

fn with(modifier: Key, key: Key) -> Keybind {
    Keybind { key, modifier: Some(modifier) }
}

#[test]
fn alt_and_meta_are_the_same_modifier() {
    assert_eq!(with(Key::Alt, Key::X), with(Key::Meta, Key::X));
    assert_eq!(with(Key::Meta, Key::X), with(Key::Alt, Key::X));
    assert_eq!(with(Key::Alt, Key::X), with(Key::Alt, Key::X));
    assert_eq!(plain(Key::X), plain(Key::X));
    assert_ne!(with(Key::Alt, Key::X), with(Key::Meta, Key::Y));
    assert_ne!(with(Key::Alt, Key::X), with(Key::Shift, Key::X));
    assert_ne!(with(Key::Control, Key::X), with(Key::Meta, Key::X));
    assert_ne!(with(Key::Alt, Key::X), plain(Key::X));
    assert_ne!(plain(Key::X), with(Key::Meta, Key::X));
}

#[test]
fn codes_agree_with_equality() {
    let keys = [Key::A, Key::Z, Key::Zero, Key::Nine, Key::Space, Key::ArrowUp, Key::ContextMenu];
    let modifiers = [None, Some(Key::Shift), Some(Key::Control), Some(Key::Alt), Some(Key::Meta)];
    let mut all = Vec::new();
    for key in keys {
        for modifier in modifiers {
            all.push(Keybind { key, modifier });
        }
    }
    for a in &all {
        for b in &all {
            assert_eq!(a.code() == b.code(), a == b, "{:?} and {:?}", a, b);
        }
    }
}

#[test]
fn bindings_without_modifier() {
    assert_eq!(bind("x").ok(), Some(plain(Key::X)));
    assert_eq!(bind("Up").ok(), Some(plain(Key::ArrowUp)));
    assert_eq!(bind("Space").ok(), Some(plain(Key::Space)));
    assert_eq!(bind("5").ok(), Some(plain(Key::Five)));
    assert_eq!(bind("Escape").ok(), Some(plain(Key::Escape)));
}

#[test]
fn bindings_with_modifier() {
    assert_eq!(bind("S-x").ok(), Some(with(Key::Shift, Key::X)));
    assert_eq!(bind("C-Up").ok(), Some(with(Key::Control, Key::ArrowUp)));
    assert_eq!(bind("A-1").ok(), Some(with(Key::Alt, Key::One)));
    assert_eq!(bind("M-1").ok(), Some(with(Key::Meta, Key::One)));
    assert_eq!(bind(" S - x ").ok(), Some(with(Key::Shift, Key::X)));
}

#[test]
fn texts_that_are_no_bindings_are_reported() {
    match bind("F1") {
        Err(KeybindParsingError::Key(KeyParseError::Config(name))) => assert_eq!(name, "F1"),
        other => panic!("read as {:?}", other),
    }
    match bind(" x") {
        Err(KeybindParsingError::Key(KeyParseError::Config(name))) => assert_eq!(name, " x"),
        other => panic!("read as {:?}", other),
    }
    match bind("S- F1 ") {
        Err(KeybindParsingError::Key(KeyParseError::Config(name))) => assert_eq!(name, "F1"),
        other => panic!("read as {:?}", other),
    }
    match bind("V-x") {
        Err(KeybindParsingError::ModifierKey(text)) => assert_eq!(text, "V-x"),
        other => panic!("read as {:?}", other),
    }
    match bind("s-x") {
        Err(KeybindParsingError::ModifierKey(text)) => assert_eq!(text, "s-x"),
        other => panic!("read as {:?}", other),
    }
    match bind("V-F1") {
        Err(KeybindParsingError::ModifierKey(text)) => assert_eq!(text, "V-F1"),
        other => panic!("read as {:?}", other),
    }
    match bind("-x") {
        Err(KeybindParsingError::ModifierKey(text)) => assert_eq!(text, "-x"),
        other => panic!("read as {:?}", other),
    }
    match bind("S-C-x") {
        Err(KeybindParsingError::Format(text)) => assert_eq!(text, "S-C-x"),
        other => panic!("read as {:?}", other),
    }
    match bind("--") {
        Err(KeybindParsingError::Format(text)) => assert_eq!(text, "--"),
        other => panic!("read as {:?}", other),
    }
}

#[test]
fn binding_error_messages() {
    assert_eq!(bind("F1").unwrap_err().message(), "Invalid config key notation: F1");
    assert_eq!(bind("V-x").unwrap_err().message(), "Invalid key used as modifier: V-x");
    assert_eq!(bind("a-b-c").unwrap_err().message(), "Invalid keybind format: a-b-c");
}

#[test]
fn lines_are_read() {
    assert!(matches!(read_line("// a comment"), Ok(LineEntry::Comment)));
    assert!(matches!(read_line("//"), Ok(LineEntry::Comment)));
    match read_line(" S-x =  WriteCell( 3 ) ") {
        Ok(LineEntry::Binding(bind, action)) => {
            assert_eq!(bind, with(Key::Shift, Key::X));
            assert_eq!(action, Action::WriteCell(3));
        }
        _ => panic!("the line binds a key"),
    }
    match read_line("x") {
        Err(KeybindManagerError::Format(text)) => assert_eq!(text, "x"),
        _ => panic!("the line has no `=`"),
    }
    match read_line("") {
        Err(KeybindManagerError::Format(text)) => assert_eq!(text, ""),
        _ => panic!("the line is empty"),
    }
    match read_line(" // indented") {
        Err(KeybindManagerError::Format(text)) => assert_eq!(text, " // indented"),
        _ => panic!("the line starts with a blank"),
    }
    match read_line("x = ClearCell() = y") {
        Err(KeybindManagerError::Format(text)) => assert_eq!(text, "x = ClearCell() = y"),
        _ => panic!("the line has two `=`"),
    }
    match read_line("F1 = nothing") {
        Err(KeybindManagerError::KeybindParsingError(KeybindParsingError::Key(
            KeyParseError::Config(name),
        ))) => assert_eq!(name, "F1"),
        _ => panic!("the binding is judged first"),
    }
    match read_line("x = nothing") {
        Err(e @ KeybindManagerError::ActionParsingError(_)) => {
            assert_eq!(e.message(), "Invalid action: nothing")
        }
        _ => panic!("the action cannot be read"),
    }
}

#[test]
fn configuration_fills_the_table() {
    let config = "// moves\nUp = MoveRow(-1, true)\r\nDown = MoveRow(1, true)\n\
                  A-x = ClearCell()\n1 = WriteCell(1)\nS-1 = ToggleCandidate(1)\n";
    let table = KeybindManager::with_config(config).ok().expect("the configuration is sound");
    assert_eq!(table.get_action(&plain(Key::ArrowUp)), Some(&Action::MoveRow(-1, true)));
    assert_eq!(table.get_action(&plain(Key::ArrowDown)), Some(&Action::MoveRow(1, true)));
    assert_eq!(table.get_action(&with(Key::Alt, Key::X)), Some(&Action::ClearCell));
    assert_eq!(table.get_action(&with(Key::Meta, Key::X)), Some(&Action::ClearCell));
    assert_eq!(table.get_action(&plain(Key::One)), Some(&Action::WriteCell(1)));
    assert_eq!(table.get_action(&with(Key::Shift, Key::One)), Some(&Action::ToggleCandidate(1)));
    assert_eq!(table.get_action(&plain(Key::X)), None);
    assert_eq!(table.get_action(&with(Key::Control, Key::X)), None);
    assert_eq!(table.get_action(&plain(Key::ArrowLeft)), None);
    let copy = table.clone();
    assert_eq!(copy.get_action(&plain(Key::One)), Some(&Action::WriteCell(1)));
}

#[test]
fn later_lines_override_earlier_ones() {
    let config = "x = WriteCell(1)\nM-y = CycleColor()\nx = WriteCell(2)\nA-y = ClearCell()";
    let table = KeybindManager::with_config(config).ok().expect("the configuration is sound");
    assert_eq!(table.get_action(&plain(Key::X)), Some(&Action::WriteCell(2)));
    assert_eq!(table.get_action(&with(Key::Meta, Key::Y)), Some(&Action::ClearCell));
}

#[test]
fn empty_configuration_binds_nothing() {
    let table = KeybindManager::with_config("").ok().expect("nothing can be wrong");
    assert_eq!(table.get_action(&plain(Key::X)), None);
}

#[test]
fn first_bad_line_is_reported() {
    let config = "x = WriteCell(1)\n\ny = Nothing()\nF1 = ClearCell()";
    match KeybindManager::with_config(config) {
        Err(KeybindManagerError::Format(text)) => assert_eq!(text, ""),
        _ => panic!("the empty line comes first"),
    }
    let config = "x = WriteCell(1)\n// fine\ny = Nothing()\nF1 = ClearCell()";
    match KeybindManager::with_config(config) {
        Err(e @ KeybindManagerError::ActionParsingError(_)) => {
            assert_eq!(e.message(), "Invalid action: Nothing()")
        }
        _ => panic!("the unknown action comes first"),
    }
    let config = "x = WriteCell(1)\nS-C-y = Nothing()";
    match KeybindManager::with_config(config) {
        Err(e @ KeybindManagerError::KeybindParsingError(_)) => {
            assert_eq!(e.message(), "Invalid keybind format: S-C-y")
        }
        _ => panic!("the binding is judged before the action"),
    }
    let config = "x = y = z";
    match KeybindManager::with_config(config) {
        Err(e @ KeybindManagerError::Format(_)) => {
            assert_eq!(e.message(), "Wrongly formatted line: x = y = z")
        }
        _ => panic!("the line has two `=`"),
    }
}
