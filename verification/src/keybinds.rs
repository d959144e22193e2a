//! Key bindings: a key with an optional modifier, the notation the
//! configuration writes them in (`x`, `S-x`, `C-Up`, ...), and the table
//! that maps bindings to actions.

use std::collections::HashMap;
use vstd::prelude::*;
use vstd::std_specs::hash::group_hash_axioms;
use vstd::string::StringExecFns;
use crate::actions::{
    lemma_parsed_action_is_well_formed, parsed_action, Action, ActionParsingError,
};
use crate::key::{key_from_config, key_index, Key, KeyParseError};
use crate::text::{
    chars_of, lemma_split_on_nonempty, lines, lines_of, split, split_on, string_of,
    strings, text_is, texts, trim, trimmed,
};

verus! {

broadcast use group_hash_axioms;

/// A key together with the modifier held down with it, if any.
///
/// Alt and Meta count as the same modifier: two bindings of one key, one
/// with Alt and one with Meta, are equal.
#[derive(Debug, Eq, Clone, Copy)]
pub struct Keybind {
    /// The key that is pressed.
    pub key: Key,
    /// The modifier that is held down with it, if any.
    pub modifier: Option<Key>,
}

/// Two modifiers are the same, or one is Alt and the other Meta.
pub open spec fn same_modifier(a: Option<Key>, b: Option<Key>) -> bool {
    a == b || (a == Some(Key::Alt) && b == Some(Key::Meta)) || (a == Some(Key::Meta) && b == Some(
        Key::Alt,
    ))
}

/// Two bindings are equal: the same key, with the same modifier.
pub open spec fn same_binding(a: Keybind, b: Keybind) -> bool {
    a.key == b.key && same_modifier(a.modifier, b.modifier)
}

impl PartialEq for Keybind {
    fn eq(&self, other: &Self) -> (same: bool) {
        if self.key != other.key {
            return false;
        }
        match (self.modifier, other.modifier) {
            (None, None) => true,
            (Some(a), Some(b)) => a == b || (a == Key::Alt && b == Key::Meta) || (a == Key::Meta
                && b == Key::Alt),
            _ => false,
        }
    }
}

impl vstd::std_specs::cmp::PartialEqSpecImpl for Keybind {
    open spec fn obeys_eq_spec() -> bool {
        true
    }

    open spec fn eq_spec(&self, other: &Self) -> bool {
        same_binding(*self, *other)
    }
}

/// The number that stands for a modifier in the code of a binding: 0 for
/// none, and one number for Alt and Meta together.
pub open spec fn modifier_code(modifier: Option<Key>) -> u64 {
    match modifier {
        None => 0,
        Some(Key::Meta) => (key_index(Key::Alt) + 1) as u64,
        Some(key) => (key_index(key) + 1) as u64,
    }
}

impl Keybind {
    /// The number that stands for this binding in the table.
    pub open spec fn code_spec(self) -> u64 {
        (key_index(self.key) * 64 + modifier_code(self.modifier)) as u64
    }

    /// The number that stands for this binding in the table. Equal bindings
    /// have the same number, different bindings different ones.
    pub fn code(&self) -> (code: u64)
        ensures
            code == self.code_spec(),
    {
        let modifier: u64 = match self.modifier {
            None => 0,
            Some(Key::Meta) => Key::Alt.index() + 1,
            Some(key) => key.index() + 1,
        };
        self.key.index() * 64 + modifier
    }
}

/// Two bindings have the same code exactly when they are equal.
pub proof fn lemma_code_tells_keybinds_apart(a: Keybind, b: Keybind)
    ensures
        a.code_spec() == b.code_spec() <==> same_binding(a, b),
{
    assert(key_index(a.key) < 64 && key_index(b.key) < 64);
    assert(modifier_code(a.modifier) < 64 && modifier_code(b.modifier) < 64);
    if a.code_spec() == b.code_spec() {
        assert(key_index(a.key) == key_index(b.key));
        assert(modifier_code(a.modifier) == modifier_code(b.modifier));
    }
}

/// A text that is no key binding.
#[derive(Debug)]
pub enum KeybindParsingError {
    /// The key is no key of the configuration notation.
    Key(KeyParseError),
    /// The modifier is none of `S`, `C`, `A` and `M`.
    ModifierKey(String),
    /// The text holds more than one `-`.
    Format(String),
}

/// A configuration that could not be read.
#[derive(Debug)]
pub enum KeybindManagerError {
    /// A line binds a key to a text that is no action.
    ActionParsingError(ActionParsingError),
    /// A line binds a text that is no key binding.
    KeybindParsingError(KeybindParsingError),
    /// A line is not of the form `binding = action`.
    Format(String),
}

/// The modifier that a letter of the configuration notation stands for.
pub open spec fn modifier_from_config(name: Seq<char>) -> Option<Key> {
    if name == "S"@ {
        Some(Key::Shift)
    } else if name == "C"@ {
        Some(Key::Control)
    } else if name == "A"@ {
        Some(Key::Alt)
    } else if name == "M"@ {
        Some(Key::Meta)
    } else {
        None
    }
}

/// The binding that the text `s` writes, if it writes one: a key name, or a
/// modifier letter and a key name with one `-` between them.
pub open spec fn parsed_keybind(s: Seq<char>) -> Option<Keybind> {
    let parts = split_on(s, '-');
    if parts.len() == 1 {
        match key_from_config(s) {
            Some(key) => Some(Keybind { key, modifier: None }),
            None => None,
        }
    } else if parts.len() == 2 {
        match (modifier_from_config(trimmed(parts[0])), key_from_config(trimmed(parts[1]))) {
            (Some(modifier), Some(key)) => Some(Keybind { key, modifier: Some(modifier) }),
            _ => None,
        }
    } else {
        None
    }
}

/// `e` says what is wrong with the text `s` as a key binding. The modifier
/// is judged before the key.
pub open spec fn keybind_fault(s: Seq<char>, e: KeybindParsingError) -> bool {
    let parts = split_on(s, '-');
    match e {
        KeybindParsingError::Key(KeyParseError::Config(name)) => {
            ||| parts.len() == 1 && key_from_config(s) is None && name@ == s
            ||| parts.len() == 2 && modifier_from_config(trimmed(parts[0])) is Some
                && key_from_config(trimmed(parts[1])) is None && name@ == trimmed(parts[1])
        },
        KeybindParsingError::Key(KeyParseError::Js(_)) => false,
        KeybindParsingError::ModifierKey(text) => parts.len() == 2 && modifier_from_config(
            trimmed(parts[0]),
        ) is None && text@ == s,
        KeybindParsingError::Format(text) => parts.len() > 2 && text@ == s,
    }
}

impl Keybind {
    /// Reads a key binding from the text that writes it.
    pub fn try_from(value: String) -> (parsed: Result<Keybind, KeybindParsingError>)
        ensures
            match parsed {
                Ok(bind) => parsed_keybind(value@) == Some(bind),
                Err(e) => parsed_keybind(value@) is None && keybind_fault(value@, e),
            },
    {
        let chars = chars_of(value.as_str());
        let parts = split(&chars, '-');
        assert(texts(parts@).len() == parts@.len());
        if parts.len() == 1 {
            match Key::try_from_config(value) {
                Ok(key) => Ok(Keybind { key, modifier: None }),
                Err(e) => Err(KeybindParsingError::Key(e)),
            }
        } else if parts.len() == 2 {
            assert(texts(parts@)[0] == parts@[0]@ && texts(parts@)[1] == parts@[1]@);
            let letter = trim(&parts[0]);
            let modifier = if text_is(&letter, "S") {
                Key::Shift
            } else if text_is(&letter, "C") {
                Key::Control
            } else if text_is(&letter, "A") {
                Key::Alt
            } else if text_is(&letter, "M") {
                Key::Meta
            } else {
                return Err(KeybindParsingError::ModifierKey(value));
            };
            let name = string_of(&trim(&parts[1]));
            match Key::try_from_config(name) {
                Ok(key) => Ok(Keybind { key, modifier: Some(modifier) }),
                Err(e) => Err(KeybindParsingError::Key(e)),
            }
        } else {
            proof {
                lemma_split_on_nonempty(value@, '-');
            }
            Err(KeybindParsingError::Format(value))
        }
    }
}

impl KeybindParsingError {
    /// The error as a line of text.
    pub open spec fn text(&self) -> Seq<char> {
        match self {
            KeybindParsingError::Key(e) => e.text(),
            KeybindParsingError::ModifierKey(text) => "Invalid key used as modifier: "@ + text@,
            KeybindParsingError::Format(text) => "Invalid keybind format: "@ + text@,
        }
    }

    /// The error as a line of text.
    pub fn message(&self) -> (line: String)
        ensures
            line@ == self.text(),
    {
        match self {
            KeybindParsingError::Key(e) => e.message(),
            KeybindParsingError::ModifierKey(text) => String::from_str(
                "Invalid key used as modifier: ",
            ).concat(text.as_str()),
            KeybindParsingError::Format(text) => String::from_str("Invalid keybind format: ").concat(
                text.as_str(),
            ),
        }
    }
}

impl KeybindManagerError {
    /// The error as a line of text.
    pub open spec fn text(&self) -> Seq<char> {
        match self {
            KeybindManagerError::ActionParsingError(e) => "Invalid action: "@ + e.text(),
            KeybindManagerError::KeybindParsingError(e) => e.text(),
            KeybindManagerError::Format(text) => "Wrongly formatted line: "@ + text@,
        }
    }

    /// The error as a line of text.
    pub fn message(&self) -> (line: String)
        ensures
            line@ == self.text(),
    {
        match self {
            KeybindManagerError::ActionParsingError(e) => e.message(),
            KeybindManagerError::KeybindParsingError(e) => e.message(),
            KeybindManagerError::Format(text) => String::from_str("Wrongly formatted line: ").concat(
                text.as_str(),
            ),
        }
    }
}

/// A line that starts with `//` is a comment.
pub open spec fn is_comment(line: Seq<char>) -> bool {
    line.len() >= 2 && line[0] == '/' && line[1] == '/'
}

/// The binding and the action that a line of the form `binding = action`
/// writes, if it is of that form and both can be read.
pub open spec fn line_binding(line: Seq<char>) -> Option<(Keybind, Action)> {
    let parts = split_on(line, '=');
    if parts.len() != 2 {
        None
    } else {
        match (parsed_keybind(trimmed(parts[0])), parsed_action(trimmed(parts[1]))) {
            (Some(bind), Some(action)) => Some((bind, action)),
            _ => None,
        }
    }
}

/// The line is neither a comment nor a readable binding.
pub open spec fn is_bad_line(line: Seq<char>) -> bool {
    !is_comment(line) && line_binding(line) is None
}

/// `e` says what is wrong with a line that is no comment. The form of the
/// line is judged first, then the binding, then the action.
pub open spec fn line_fault(line: Seq<char>, e: KeybindManagerError) -> bool {
    let parts = split_on(line, '=');
    match e {
        KeybindManagerError::Format(text) => parts.len() != 2 && text@ == line,
        KeybindManagerError::KeybindParsingError(fault) => parts.len() == 2 && parsed_keybind(
            trimmed(parts[0]),
        ) is None && keybind_fault(trimmed(parts[0]), fault),
        KeybindManagerError::ActionParsingError(fault) => parts.len() == 2 && parsed_keybind(
            trimmed(parts[0]),
        ) is Some && parsed_action(trimmed(parts[1])) is None && fault.text() == trimmed(parts[1]),
    }
}

/// The table that the given lines write: every readable binding, by its
/// code, with the action of the last line that binds it.
pub open spec fn binds_of(lines: Seq<Seq<char>>) -> Map<u64, Action>
    decreases lines.len(),
{
    if lines.len() == 0 {
        Map::empty()
    } else {
        let before = binds_of(lines.drop_last());
        let line = lines.last();
        if is_comment(line) {
            before
        } else {
            match line_binding(line) {
                Some((bind, action)) => before.insert(bind.code_spec(), action),
                None => before,
            }
        }
    }
}

/// What reading one line of a configuration gave.
pub enum LineEntry {
    /// The line is a comment.
    Comment,
    /// The line binds a key to an action.
    Binding(Keybind, Action),
}

/// Reads one line of a configuration.
pub fn read_line(line: &str) -> (entry: Result<LineEntry, KeybindManagerError>)
    ensures
        match entry {
            Ok(LineEntry::Comment) => is_comment(line@),
            Ok(LineEntry::Binding(bind, action)) => !is_comment(line@) && line_binding(line@)
                == Some((bind, action)),
            Err(e) => is_bad_line(line@) && line_fault(line@, e),
        },
{
    let chars = chars_of(line);
    if chars.len() >= 2 && chars[0] == '/' && chars[1] == '/' {
        return Ok(LineEntry::Comment);
    }
    let parts = split(&chars, '=');
    assert(texts(parts@).len() == parts@.len());
    if parts.len() != 2 {
        return Err(KeybindManagerError::Format(string_of(&chars)));
    }
    assert(texts(parts@)[0] == parts@[0]@ && texts(parts@)[1] == parts@[1]@);
    let bind = match Keybind::try_from(string_of(&trim(&parts[0]))) {
        Ok(bind) => bind,
        Err(e) => {
            return Err(KeybindManagerError::KeybindParsingError(e));
        },
    };
    let action = match Action::try_from(string_of(&trim(&parts[1]))) {
        Ok(action) => action,
        Err(e) => {
            return Err(KeybindManagerError::ActionParsingError(e));
        },
    };
    Ok(LineEntry::Binding(bind, action))
}

/// The table of key bindings.
pub struct KeybindManager {
    binds: HashMap<u64, Action>,
}

impl Clone for KeybindManager {
    fn clone(&self) -> (copy: Self)
        ensures
            copy@ == self@,
    {
        proof {
            use_type_invariant(self);
        }
        KeybindManager { binds: self.binds.clone() }
    }
}

/// Every action in the table is well formed.
pub open spec fn well_formed_table(table: Map<u64, Action>) -> bool {
    forall|code: u64| table.contains_key(code) ==> (#[trigger] table[code]).is_well_formed()
}

impl View for KeybindManager {
    type V = Map<u64, Action>;

    /// The actions by the codes of the bindings that are bound to them.
    closed spec fn view(&self) -> Map<u64, Action> {
        self.binds@
    }
}

impl KeybindManager {
    #[verifier::type_invariant]
    spec fn holds_well_formed_actions(self) -> bool {
        well_formed_table(self.binds@)
    }

    /// Reads the table from a configuration.
    ///
    /// Every line is a comment, which starts with `//`, or binds a key to
    /// an action in the form `binding = action`; where two lines bind the
    /// same key, the later one counts. The first line that is neither is
    /// reported.
    pub fn with_config(config: &str) -> (manager: Result<KeybindManager, KeybindManagerError>)
        ensures
            match manager {
                Ok(table) => {
                    &&& forall|i: int|
                        0 <= i < lines_of(config@).len() ==> !is_bad_line(
                            #[trigger] lines_of(config@)[i],
                        )
                    &&& table@ == binds_of(lines_of(config@))
                },
                Err(e) => exists|i: int|
                    {
                        &&& 0 <= i < lines_of(config@).len()
                        &&& is_bad_line(#[trigger] lines_of(config@)[i])
                        &&& line_fault(lines_of(config@)[i], e)
                        &&& forall|j: int| 0 <= j < i ==> !is_bad_line(#[trigger] lines_of(config@)[j])
                    },
            },
    {
        let list = lines(config);
        let ghost all = lines_of(config@);
        assert(strings(list@).len() == list@.len());
        let mut binds: HashMap<u64, Action> = HashMap::new();
        let mut i: usize = 0;
        assert(all.take(0) =~= Seq::<Seq<char>>::empty());
        while i < list.len()
            invariant
                i <= list.len(),
                strings(list@) == all,
                all == lines_of(config@),
                forall|j: int| 0 <= j < i ==> !is_bad_line(#[trigger] all[j]),
                binds@ == binds_of(all.take(i as int)),
                well_formed_table(binds@),
            decreases list.len() - i,
        {
            assert(strings(list@)[i as int] == list@[i as int]@);
            assert(all.take(i + 1).drop_last() =~= all.take(i as int));
            assert(all.take(i + 1).last() == all[i as int]);
            match read_line(list[i].as_str()) {
                Ok(LineEntry::Comment) => {},
                Ok(LineEntry::Binding(bind, action)) => {
                    proof {
                        lemma_parsed_action_is_well_formed(
                            trimmed(split_on(all[i as int], '=')[1]),
                        );
                    }
                    binds.insert(bind.code(), action);
                },
                Err(e) => {
                    assert(is_bad_line(all[i as int]) && line_fault(all[i as int], e));
                    return Err(e);
                },
            }
            i += 1;
        }
        assert(all.take(list.len() as int) =~= all);
        Ok(KeybindManager { binds })
    }

    /// Looks up the action that a binding is bound to.
    pub fn get_action(&self, keybind: &Keybind) -> (action: Option<&Action>)
        ensures
            match action {
                Some(bound) => self@.contains_key(keybind.code_spec()) && *bound
                    == self@[keybind.code_spec()] && bound.is_well_formed(),
                None => !self@.contains_key(keybind.code_spec()),
            },
    {
        proof {
            use_type_invariant(self);
        }
        let code = keybind.code();
        self.binds.get(&code)
    }
}

} // verus!
