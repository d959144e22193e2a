//! The keys the game understands, and how their names are read from
//! keyboard events and from the key-binding configuration.

use vstd::prelude::*;
use vstd::string::StringExecFns;
use crate::text::{chars_of, text_is};

verus! {

/// A key of the keyboard.
#[derive(Debug, Clone, Copy, PartialEq, Eq, Hash, Structural)]
pub enum Key {
    A,
    B,
    C,
    D,
    E,
    F,
    G,
    H,
    I,
    J,
    K,
    L,
    M,
    N,
    O,
    P,
    Q,
    R,
    S,
    T,
    U,
    V,
    W,
    X,
    Y,
    Z,
    Zero,
    One,
    Two,
    Three,
    Four,
    Five,
    Six,
    Seven,
    Eight,
    Nine,
    Space,
    ArrowUp,
    ArrowDown,
    ArrowLeft,
    ArrowRight,
    Escape,
    Enter,
    Backspace,
    Tab,
    CapsLock,
    Shift,
    Alt,
    Control,
    Meta,
    ContextMenu,
}

/// A key name that could not be read.
#[derive(Debug)]
pub enum KeyParseError {
    /// The name is no key name of the configuration notation.
    Config(String),
    /// The name is no key name of the keyboard-event notation.
    Js(String),
}

/// The key that a `KeyboardEvent.key` value names, if it names one. Letters
/// are read in either case.
pub open spec fn key_from_js(name: Seq<char>) -> Option<Key> {
    if name == "a"@ || name == "A"@ {
        Some(Key::A)
    } else if name == "b"@ || name == "B"@ {
        Some(Key::B)
    } else if name == "c"@ || name == "C"@ {
        Some(Key::C)
    } else if name == "d"@ || name == "D"@ {
        Some(Key::D)
    } else if name == "e"@ || name == "E"@ {
        Some(Key::E)
    } else if name == "f"@ || name == "F"@ {
        Some(Key::F)
    } else if name == "g"@ || name == "G"@ {
        Some(Key::G)
    } else if name == "h"@ || name == "H"@ {
        Some(Key::H)
    } else if name == "i"@ || name == "I"@ {
        Some(Key::I)
    } else if name == "j"@ || name == "J"@ {
        Some(Key::J)
    } else if name == "k"@ || name == "K"@ {
        Some(Key::K)
    } else if name == "l"@ || name == "L"@ {
        Some(Key::L)
    } else if name == "m"@ || name == "M"@ {
        Some(Key::M)
    } else if name == "n"@ || name == "N"@ {
        Some(Key::N)
    } else if name == "o"@ || name == "O"@ {
        Some(Key::O)
    } else if name == "p"@ || name == "P"@ {
        Some(Key::P)
    } else if name == "q"@ || name == "Q"@ {
        Some(Key::Q)
    } else if name == "r"@ || name == "R"@ {
        Some(Key::R)
    } else if name == "s"@ || name == "S"@ {
        Some(Key::S)
    } else if name == "t"@ || name == "T"@ {
        Some(Key::T)
    } else if name == "u"@ || name == "U"@ {
        Some(Key::U)
    } else if name == "v"@ || name == "V"@ {
        Some(Key::V)
    } else if name == "w"@ || name == "W"@ {
        Some(Key::W)
    } else if name == "x"@ || name == "X"@ {
        Some(Key::X)
    } else if name == "y"@ || name == "Y"@ {
        Some(Key::Y)
    } else if name == "z"@ || name == "Z"@ {
        Some(Key::Z)
    } else if name == "0"@ {
        Some(Key::Zero)
    } else if name == "1"@ {
        Some(Key::One)
    } else if name == "2"@ {
        Some(Key::Two)
    } else if name == "3"@ {
        Some(Key::Three)
    } else if name == "4"@ {
        Some(Key::Four)
    } else if name == "5"@ {
        Some(Key::Five)
    } else if name == "6"@ {
        Some(Key::Six)
    } else if name == "7"@ {
        Some(Key::Seven)
    } else if name == "8"@ {
        Some(Key::Eight)
    } else if name == "9"@ {
        Some(Key::Nine)
    } else if name == " "@ {
        Some(Key::Space)
    } else if name == "ArrowUp"@ {
        Some(Key::ArrowUp)
    } else if name == "ArrowDown"@ {
        Some(Key::ArrowDown)
    } else if name == "ArrowLeft"@ {
        Some(Key::ArrowLeft)
    } else if name == "ArrowRight"@ {
        Some(Key::ArrowRight)
    } else if name == "Escape"@ {
        Some(Key::Escape)
    } else if name == "Enter"@ {
        Some(Key::Enter)
    } else if name == "Backspace"@ {
        Some(Key::Backspace)
    } else if name == "Tab"@ {
        Some(Key::Tab)
    } else if name == "CapsLock"@ {
        Some(Key::CapsLock)
    } else if name == "Shift"@ {
        Some(Key::Shift)
    } else if name == "Alt"@ {
        Some(Key::Alt)
    } else if name == "Control"@ {
        Some(Key::Control)
    } else if name == "Meta"@ {
        Some(Key::Meta)
    } else if name == "ContextMenu"@ {
        Some(Key::ContextMenu)
    } else {
        None
    }
}

/// The key that a configuration name stands for, if it stands for one: the
/// short names of the arrows and of the space bar, and every keyboard-event
/// name.
pub open spec fn key_from_config(name: Seq<char>) -> Option<Key> {
    if name == "Up"@ {
        Some(Key::ArrowUp)
    } else if name == "Down"@ {
        Some(Key::ArrowDown)
    } else if name == "Left"@ {
        Some(Key::ArrowLeft)
    } else if name == "Right"@ {
        Some(Key::ArrowRight)
    } else if name == "Space"@ {
        Some(Key::Space)
    } else {
        key_from_js(name)
    }
}

/// The place of a key in the list of all keys, counted from 0; no two keys
/// share a place.
pub open spec fn key_index(key: Key) -> u64 {
    match key {
        Key::A => 0,
        Key::B => 1,
        Key::C => 2,
        Key::D => 3,
        Key::E => 4,
        Key::F => 5,
        Key::G => 6,
        Key::H => 7,
        Key::I => 8,
        Key::J => 9,
        Key::K => 10,
        Key::L => 11,
        Key::M => 12,
        Key::N => 13,
        Key::O => 14,
        Key::P => 15,
        Key::Q => 16,
        Key::R => 17,
        Key::S => 18,
        Key::T => 19,
        Key::U => 20,
        Key::V => 21,
        Key::W => 22,
        Key::X => 23,
        Key::Y => 24,
        Key::Z => 25,
        Key::Zero => 26,
        Key::One => 27,
        Key::Two => 28,
        Key::Three => 29,
        Key::Four => 30,
        Key::Five => 31,
        Key::Six => 32,
        Key::Seven => 33,
        Key::Eight => 34,
        Key::Nine => 35,
        Key::Space => 36,
        Key::ArrowUp => 37,
        Key::ArrowDown => 38,
        Key::ArrowLeft => 39,
        Key::ArrowRight => 40,
        Key::Escape => 41,
        Key::Enter => 42,
        Key::Backspace => 43,
        Key::Tab => 44,
        Key::CapsLock => 45,
        Key::Shift => 46,
        Key::Alt => 47,
        Key::Control => 48,
        Key::Meta => 49,
        Key::ContextMenu => 50,
    }
}

impl Key {
    /// Reads the value of `KeyboardEvent.key`.
    pub fn try_from_js(value: String) -> (parsed: Result<Key, KeyParseError>)
        ensures
            match parsed {
                Ok(key) => key_from_js(value@) == Some(key),
                Err(e) => {
                    &&& key_from_js(value@) is None
                    &&& e matches KeyParseError::Js(name)
                    &&& name@ == value@
                },
            },
    {
        let name = chars_of(value.as_str());
        if text_is(&name, "a") || text_is(&name, "A") {
            Ok(Key::A)
        } else if text_is(&name, "b") || text_is(&name, "B") {
            Ok(Key::B)
        } else if text_is(&name, "c") || text_is(&name, "C") {
            Ok(Key::C)
        } else if text_is(&name, "d") || text_is(&name, "D") {
            Ok(Key::D)
        } else if text_is(&name, "e") || text_is(&name, "E") {
            Ok(Key::E)
        } else if text_is(&name, "f") || text_is(&name, "F") {
            Ok(Key::F)
        } else if text_is(&name, "g") || text_is(&name, "G") {
            Ok(Key::G)
        } else if text_is(&name, "h") || text_is(&name, "H") {
            Ok(Key::H)
        } else if text_is(&name, "i") || text_is(&name, "I") {
            Ok(Key::I)
        } else if text_is(&name, "j") || text_is(&name, "J") {
            Ok(Key::J)
        } else if text_is(&name, "k") || text_is(&name, "K") {
            Ok(Key::K)
        } else if text_is(&name, "l") || text_is(&name, "L") {
            Ok(Key::L)
        } else if text_is(&name, "m") || text_is(&name, "M") {
            Ok(Key::M)
        } else if text_is(&name, "n") || text_is(&name, "N") {
            Ok(Key::N)
        } else if text_is(&name, "o") || text_is(&name, "O") {
            Ok(Key::O)
        } else if text_is(&name, "p") || text_is(&name, "P") {
            Ok(Key::P)
        } else if text_is(&name, "q") || text_is(&name, "Q") {
            Ok(Key::Q)
        } else if text_is(&name, "r") || text_is(&name, "R") {
            Ok(Key::R)
        } else if text_is(&name, "s") || text_is(&name, "S") {
            Ok(Key::S)
        } else if text_is(&name, "t") || text_is(&name, "T") {
            Ok(Key::T)
        } else if text_is(&name, "u") || text_is(&name, "U") {
            Ok(Key::U)
        } else if text_is(&name, "v") || text_is(&name, "V") {
            Ok(Key::V)
        } else if text_is(&name, "w") || text_is(&name, "W") {
            Ok(Key::W)
        } else if text_is(&name, "x") || text_is(&name, "X") {
            Ok(Key::X)
        } else if text_is(&name, "y") || text_is(&name, "Y") {
            Ok(Key::Y)
        } else if text_is(&name, "z") || text_is(&name, "Z") {
            Ok(Key::Z)
        } else if text_is(&name, "0") {
            Ok(Key::Zero)
        } else if text_is(&name, "1") {
            Ok(Key::One)
        } else if text_is(&name, "2") {
            Ok(Key::Two)
        } else if text_is(&name, "3") {
            Ok(Key::Three)
        } else if text_is(&name, "4") {
            Ok(Key::Four)
        } else if text_is(&name, "5") {
            Ok(Key::Five)
        } else if text_is(&name, "6") {
            Ok(Key::Six)
        } else if text_is(&name, "7") {
            Ok(Key::Seven)
        } else if text_is(&name, "8") {
            Ok(Key::Eight)
        } else if text_is(&name, "9") {
            Ok(Key::Nine)
        } else if text_is(&name, " ") {
            Ok(Key::Space)
        } else if text_is(&name, "ArrowUp") {
            Ok(Key::ArrowUp)
        } else if text_is(&name, "ArrowDown") {
            Ok(Key::ArrowDown)
        } else if text_is(&name, "ArrowLeft") {
            Ok(Key::ArrowLeft)
        } else if text_is(&name, "ArrowRight") {
            Ok(Key::ArrowRight)
        } else if text_is(&name, "Escape") {
            Ok(Key::Escape)
        } else if text_is(&name, "Enter") {
            Ok(Key::Enter)
        } else if text_is(&name, "Backspace") {
            Ok(Key::Backspace)
        } else if text_is(&name, "Tab") {
            Ok(Key::Tab)
        } else if text_is(&name, "CapsLock") {
            Ok(Key::CapsLock)
        } else if text_is(&name, "Shift") {
            Ok(Key::Shift)
        } else if text_is(&name, "Alt") {
            Ok(Key::Alt)
        } else if text_is(&name, "Control") {
            Ok(Key::Control)
        } else if text_is(&name, "Meta") {
            Ok(Key::Meta)
        } else if text_is(&name, "ContextMenu") {
            Ok(Key::ContextMenu)
        } else {
            Err(KeyParseError::Js(value))
        }
    }

    /// Reads a key name of the configuration notation.
    pub fn try_from_config(value: String) -> (parsed: Result<Key, KeyParseError>)
        ensures
            match parsed {
                Ok(key) => key_from_config(value@) == Some(key),
                Err(e) => {
                    &&& key_from_config(value@) is None
                    &&& e matches KeyParseError::Config(name)
                    &&& name@ == value@
                },
            },
    {
        let name = chars_of(value.as_str());
        if text_is(&name, "Up") {
            Ok(Key::ArrowUp)
        } else if text_is(&name, "Down") {
            Ok(Key::ArrowDown)
        } else if text_is(&name, "Left") {
            Ok(Key::ArrowLeft)
        } else if text_is(&name, "Right") {
            Ok(Key::ArrowRight)
        } else if text_is(&name, "Space") {
            Ok(Key::Space)
        } else {
            match Key::try_from_js(value.clone()) {
                Ok(key) => Ok(key),
                Err(_) => Err(KeyParseError::Config(value)),
            }
        }
    }

    /// The place of the key in the list of all keys.
    pub fn index(&self) -> (place: u64)
        ensures
            place == key_index(*self),
    {
        match self {
            Key::A => 0,
            Key::B => 1,
            Key::C => 2,
            Key::D => 3,
            Key::E => 4,
            Key::F => 5,
            Key::G => 6,
            Key::H => 7,
            Key::I => 8,
            Key::J => 9,
            Key::K => 10,
            Key::L => 11,
            Key::M => 12,
            Key::N => 13,
            Key::O => 14,
            Key::P => 15,
            Key::Q => 16,
            Key::R => 17,
            Key::S => 18,
            Key::T => 19,
            Key::U => 20,
            Key::V => 21,
            Key::W => 22,
            Key::X => 23,
            Key::Y => 24,
            Key::Z => 25,
            Key::Zero => 26,
            Key::One => 27,
            Key::Two => 28,
            Key::Three => 29,
            Key::Four => 30,
            Key::Five => 31,
            Key::Six => 32,
            Key::Seven => 33,
            Key::Eight => 34,
            Key::Nine => 35,
            Key::Space => 36,
            Key::ArrowUp => 37,
            Key::ArrowDown => 38,
            Key::ArrowLeft => 39,
            Key::ArrowRight => 40,
            Key::Escape => 41,
            Key::Enter => 42,
            Key::Backspace => 43,
            Key::Tab => 44,
            Key::CapsLock => 45,
            Key::Shift => 46,
            Key::Alt => 47,
            Key::Control => 48,
            Key::Meta => 49,
            Key::ContextMenu => 50,
        }
    }

    /// The key is one of the ten digit keys.
    pub open spec fn is_digit_key(self) -> bool {
        self is Zero || self is One || self is Two || self is Three || self is Four || self is Five
            || self is Six || self is Seven || self is Eight || self is Nine
    }

    /// The digit that a digit key types.
    pub open spec fn digit_value(self) -> u8
        recommends
            self.is_digit_key(),
    {
        match self {
            Key::One => 1,
            Key::Two => 2,
            Key::Three => 3,
            Key::Four => 4,
            Key::Five => 5,
            Key::Six => 6,
            Key::Seven => 7,
            Key::Eight => 8,
            Key::Nine => 9,
            _ => 0,
        }
    }

    /// Tells whether the key is a digit key.
    pub fn is_digit(&self) -> (digit: bool)
        ensures
            digit == self.is_digit_key(),
    {
        matches!(
            self,
            Key::Zero | Key::One | Key::Two | Key::Three | Key::Four | Key::Five | Key::Six
                | Key::Seven | Key::Eight | Key::Nine
        )
    }

    /// Tells whether the key is one of the four arrow keys.
    pub fn is_arrow(&self) -> (arrow: bool)
        ensures
            arrow == (self is ArrowUp || self is ArrowDown || self is ArrowLeft || self is ArrowRight),
    {
        matches!(self, Key::ArrowUp | Key::ArrowDown | Key::ArrowLeft | Key::ArrowRight)
    }

    /// Tells whether the key can modify another key: Shift, Control, Alt or
    /// Meta.
    pub fn is_modifier(&self) -> (modifier: bool)
        ensures
            modifier == (self is Shift || self is Control || self is Alt || self is Meta),
    {
        matches!(self, Key::Shift | Key::Control | Key::Alt | Key::Meta)
    }

    /// The digit that a digit key types.
    pub fn to_digit(self) -> (digit: u8)
        requires
            self.is_digit_key(),
        ensures
            digit == self.digit_value(),
            digit <= 9,
    {
        match self {
            Key::One => 1,
            Key::Two => 2,
            Key::Three => 3,
            Key::Four => 4,
            Key::Five => 5,
            Key::Six => 6,
            Key::Seven => 7,
            Key::Eight => 8,
            Key::Nine => 9,
            _ => 0,
        }
    }
}

impl KeyParseError {
    /// The error as a line of text.
    pub open spec fn text(&self) -> Seq<char> {
        match self {
            KeyParseError::Config(name) => "Invalid config key notation: "@ + name@,
            KeyParseError::Js(name) => "Invalid config JS notation: "@ + name@,
        }
    }

    /// The error as a line of text.
    pub fn message(&self) -> (line: String)
        ensures
            line@ == self.text(),
    {
        match self {
            KeyParseError::Config(name) => String::from_str("Invalid config key notation: ").concat(
                name.as_str(),
            ),
            KeyParseError::Js(name) => String::from_str("Invalid config JS notation: ").concat(
                name.as_str(),
            ),
        }
    }
}

} // verus!
