//! The actions a key can be bound to, and the notation the configuration
//! writes them in: a name followed by its arguments in parentheses, as in
//! `ClearCell()`, `WriteCell(5)` or `MoveRow(-1, true)`.

use vstd::prelude::*;
use vstd::string::StringExecFns;
use crate::text::{
    chars_of, decimal_i8, decimal_u8, lowercase, parse_i8, parse_u8, split, split_on, string_of,
    str_eq, strings, text_is, texts, to_lowercase, trim, trimmed,
};

verus! {

/// Something the player can do with a key press.
#[derive(Clone, Copy, Debug, PartialEq, Eq, Structural)]
pub enum Action {
    /// Move the focus by so many rows; `true` keeps it where it is if the
    /// move would leave the board, `false` stops it at the edge.
    MoveRow(i8, bool),
    /// Move the focus by so many columns, in the same two ways.
    MoveCol(i8, bool),
    /// Write a digit into the focused cell.
    WriteCell(u8),
    /// Mark a digit as a candidate of the focused cell.
    SetCandidate(u8),
    /// Unmark a digit as a candidate of the focused cell.
    RemoveCandidate(u8),
    /// Mark the digit if it is unmarked, unmark it if it is marked.
    ToggleCandidate(u8),
    /// Empty the focused cell.
    ClearCell,
    /// Give the focused cell the next colour.
    CycleColor,
    /// Take the colour off every cell.
    ClearAllColors,
}

impl Action {
    /// An action that names a digit names one of `1..=9`.
    pub open spec fn is_well_formed(self) -> bool {
        match self {
            Action::WriteCell(n) => 1 <= n <= 9,
            Action::SetCandidate(n) => 1 <= n <= 9,
            Action::RemoveCandidate(n) => 1 <= n <= 9,
            Action::ToggleCandidate(n) => 1 <= n <= 9,
            _ => true,
        }
    }
}

/// A text that is no action.
#[derive(Debug)]
pub struct ActionParsingError(String);

impl ActionParsingError {
    /// The text that could not be read.
    pub closed spec fn text(&self) -> Seq<char> {
        self.0@
    }

    /// The error for a text that is no action.
    pub fn new(text: String) -> (error: Self)
        ensures
            error.text() == text@,
    {
        ActionParsingError(text)
    }

    /// The text that could not be read.
    pub fn as_str(&self) -> (text: &str)
        ensures
            text@ == self.text(),
    {
        self.0.as_str()
    }

    /// The error as a line of text.
    pub fn message(&self) -> (line: String)
        ensures
            line@ == "Invalid action: "@ + self.text(),
    {
        String::from_str("Invalid action: ").concat(self.0.as_str())
    }
}

/// The arguments written in the text between the parentheses: none if the
/// text is empty, else the trimmed pieces between the commas.
pub open spec fn call_arguments(body: Seq<char>) -> Seq<Seq<char>> {
    if body.len() == 0 {
        Seq::<Seq<char>>::empty()
    } else {
        split_on(body, ',').map_values(|piece: Seq<char>| trimmed(piece))
    }
}

/// The name and the arguments of an action written as a call, if `s` is
/// written so: one opening parenthesis, and a closing one at the very end.
pub open spec fn action_call(s: Seq<char>) -> Option<(Seq<char>, Seq<Seq<char>>)> {
    let parts = split_on(s, '(');
    if parts.len() != 2 || parts[1].len() == 0 || parts[1].last() != ')' {
        None
    } else {
        Some((parts[0], call_arguments(parts[1].drop_last())))
    }
}

/// The action with the given lowercase name, for a call with `count`
/// arguments of which the first reads as `digit` and as `step`, and the
/// second says `flag`.
pub open spec fn action_from_parts(
    name: Seq<char>,
    count: nat,
    digit: Option<u8>,
    step: Option<i8>,
    flag: bool,
) -> Option<Action> {
    if count == 0 {
        if name == "cyclecolor"@ {
            Some(Action::CycleColor)
        } else if name == "clearallcolors"@ {
            Some(Action::ClearAllColors)
        } else if name == "clearcell"@ {
            Some(Action::ClearCell)
        } else {
            None
        }
    } else if count == 1 {
        match digit {
            Some(d) if 1 <= d <= 9 => {
                if name == "writecell"@ {
                    Some(Action::WriteCell(d))
                } else if name == "setcandidate"@ {
                    Some(Action::SetCandidate(d))
                } else if name == "removecandidate"@ {
                    Some(Action::RemoveCandidate(d))
                } else if name == "togglecandidate"@ {
                    Some(Action::ToggleCandidate(d))
                } else {
                    None
                }
            },
            _ => None,
        }
    } else if count == 2 {
        match step {
            Some(n) => {
                if name == "moverow"@ {
                    Some(Action::MoveRow(n, flag))
                } else if name == "movecol"@ {
                    Some(Action::MoveCol(n, flag))
                } else {
                    None
                }
            },
            None => None,
        }
    } else {
        None
    }
}

/// The action that a name and its arguments stand for. The name is read
/// without regard to case; a single argument is read as a digit, the first
/// of two as a step and the second as `true` or anything else.
pub open spec fn action_of(name: Seq<char>, args: Seq<Seq<char>>) -> Option<Action> {
    action_from_parts(
        lowercase(name),
        args.len(),
        if args.len() == 1 {
            decimal_u8(args[0])
        } else {
            None
        },
        if args.len() == 2 {
            decimal_i8(args[0])
        } else {
            None
        },
        args.len() == 2 && lowercase(args[1]) == "true"@,
    )
}

/// The action that the text `s` writes, if it writes one.
pub open spec fn parsed_action(s: Seq<char>) -> Option<Action> {
    match action_call(s) {
        Some((name, args)) => action_of(name, args),
        None => None,
    }
}

/// Every action that a text writes is well formed.
pub proof fn lemma_parsed_action_is_well_formed(s: Seq<char>)
    ensures
        parsed_action(s) matches Some(action) ==> action.is_well_formed(),
{
}

/// Takes an action written as a call apart into its name and its arguments.
pub fn parse_action_string(value: &str) -> (call: Option<(String, Vec<String>)>)
    ensures
        match call {
            Some((name, args)) => action_call(value@) == Some((name@, strings(args@))),
            None => action_call(value@) is None,
        },
{
    let chars = chars_of(value);
    let parts = split(&chars, '(');
    assert(texts(parts@).len() == parts@.len());
    if parts.len() != 2 {
        return None;
    }
    assert(texts(parts@)[0] == parts@[0]@ && texts(parts@)[1] == parts@[1]@);
    let rest = &parts[1];
    if rest.len() == 0 || rest[rest.len() - 1] != ')' {
        return None;
    }
    let name = string_of(&parts[0]);
    let mut body: Vec<char> = Vec::new();
    let mut i: usize = 0;
    while i < rest.len() - 1
        invariant
            rest.len() >= 1,
            i <= rest.len() - 1,
            body@ == rest@.take(i as int),
        decreases rest.len() - i,
    {
        body.push(rest[i]);
        assert(rest@.take(i + 1) =~= rest@.take(i as int).push(rest@[i as int]));
        i += 1;
    }
    assert(body@ =~= rest@.drop_last());
    let mut args: Vec<String> = Vec::new();
    if body.len() > 0 {
        let pieces = split(&body, ',');
        assert(texts(pieces@).len() == pieces@.len());
        let mut k: usize = 0;
        while k < pieces.len()
            invariant
                k <= pieces.len(),
                texts(pieces@) == split_on(body@, ','),
                args@.len() == k,
                forall|j: int| 0 <= j < k ==> (#[trigger] args@[j])@ == trimmed(split_on(body@, ',')[j]),
            decreases pieces.len() - k,
        {
            assert(texts(pieces@)[k as int] == pieces@[k as int]@);
            let piece = trim(&pieces[k]);
            args.push(string_of(&piece));
            k += 1;
        }
        assert(strings(args@) =~= call_arguments(body@));
    } else {
        assert(strings(args@) =~= call_arguments(body@));
    }
    Some((name, args))
}

impl Action {
    /// Picks the action with the given lowercase name for a call with
    /// `count` arguments, of which the first reads as `digit` and as `step`
    /// and the second says `flag`.
    pub fn from_parts(name: &str, count: usize, digit: Option<u8>, step: Option<i8>, flag: bool) -> (action:
        Option<Action>)
        ensures
            action == action_from_parts(name@, count as nat, digit, step, flag),
    {
        let word = chars_of(name);
        if count == 0 {
            if text_is(&word, "cyclecolor") {
                Some(Action::CycleColor)
            } else if text_is(&word, "clearallcolors") {
                Some(Action::ClearAllColors)
            } else if text_is(&word, "clearcell") {
                Some(Action::ClearCell)
            } else {
                None
            }
        } else if count == 1 {
            match digit {
                Some(d) => {
                    if d < 1 || d > 9 {
                        None
                    } else if text_is(&word, "writecell") {
                        Some(Action::WriteCell(d))
                    } else if text_is(&word, "setcandidate") {
                        Some(Action::SetCandidate(d))
                    } else if text_is(&word, "removecandidate") {
                        Some(Action::RemoveCandidate(d))
                    } else if text_is(&word, "togglecandidate") {
                        Some(Action::ToggleCandidate(d))
                    } else {
                        None
                    }
                },
                None => None,
            }
        } else if count == 2 {
            match step {
                Some(n) => {
                    if text_is(&word, "moverow") {
                        Some(Action::MoveRow(n, flag))
                    } else if text_is(&word, "movecol") {
                        Some(Action::MoveCol(n, flag))
                    } else {
                        None
                    }
                },
                None => None,
            }
        } else {
            None
        }
    }

    /// Reads an action from the text that writes it.
    pub fn try_from(value: String) -> (parsed: Result<Action, ActionParsingError>)
        ensures
            match parsed {
                Ok(action) => parsed_action(value@) == Some(action),
                Err(e) => parsed_action(value@) is None && e.text() == value@,
            },
    {
        let (name, args) = match parse_action_string(value.as_str()) {
            Some(call) => call,
            None => {
                return Err(ActionParsingError(value));
            },
        };
        assert(strings(args@).len() == args@.len());
        let lower = to_lowercase(name.as_str());
        let count = args.len();
        let digit = if count == 1 {
            assert(strings(args@)[0] == args@[0]@);
            parse_u8(args[0].as_str())
        } else {
            None
        };
        let step = if count == 2 {
            assert(strings(args@)[0] == args@[0]@);
            parse_i8(args[0].as_str())
        } else {
            None
        };
        let flag = if count == 2 {
            assert(strings(args@)[1] == args@[1]@);
            let word = to_lowercase(args[1].as_str());
            str_eq(word.as_str(), "true")
        } else {
            false
        };
        match Action::from_parts(lower.as_str(), count, digit, step, flag) {
            Some(action) => Ok(action),
            None => Err(ActionParsingError(value)),
        }
    }
}

} // verus!
