//! A falling-block puzzle engine: piece geometry, a playfield with line
//! clearing, collision checks, a linear-congruential piece randomizer and the
//! per-tick game state machine, drawn onto a character-cell frame buffer.
pub mod board;
pub mod colors;
pub mod glyphs;
pub mod piece;
pub mod random;
pub mod screen;
pub mod shape;
pub mod tetris;

pub use board::{Board, GAME_HEIGHT, GAME_WIDTH};
pub use piece::PieceKind;
pub use random::RandomGenerator;
pub use screen::{decimal_chars, Color, DimensionError, OutOfBoundsError, Pixel, Screen};
pub use shape::Shape;
pub use tetris::{Piece, Tetris};
