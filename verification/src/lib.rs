//! A terminal Pac-Man: a maze of walls and open floor with wrap-around
//! edges, a player that eats pellets, and ghosts that wander at random.
//!
//! The crate holds the game's rules. Reading the keyboard, drawing and
//! timing are left to the program that uses it.

/// Keyboard entries, their decoding, and the glyphs of the display.
pub mod console;

/// The state of a game and the operations that advance it.
pub mod game;
