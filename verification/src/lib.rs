//! A Sudoku game library.
//!
//! The engine generates a random solution and masks it into a puzzle with
//! exactly one completion: [`grid`] holds the board and the legality check,
//! [`completion`] and [`units`] say what completing a grid means, [`solver`]
//! counts completions, [`generator`] fills a grid at random, [`masker`]
//! removes digits, and [`generation`] ties them together.
//!
//! Around the engine stands the game itself: [`key`], [`actions`] and
//! [`keybinds`] read the key-binding configuration, [`game_state`] holds a
//! game in progress and says what every action does to it, and [`layout`]
//! places the board on the canvas. [`random`] and [`text`] hold what is
//! taken on trust from the random source and from the standard library.

pub mod actions;
pub mod completion;
pub mod game_state;
pub mod generation;
pub mod generator;
pub mod grid;
pub mod key;
pub mod keybinds;
pub mod layout;
pub mod masker;
pub mod random;
pub mod solver;
pub mod text;
pub mod units;
