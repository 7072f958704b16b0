//! Rules engine for a two-player token-drop grid game.
//!
//! Players alternately drop tokens into the columns of a rectangular board.
//! A token falls to the lowest empty cell of its column, and the first player
//! to line up enough tokens in a row, a column or a diagonal wins.

pub mod columns;
pub mod cursor;
pub mod diagonals;
pub mod field;
pub mod game;
pub mod moves;
pub mod player;
pub mod rows;
pub mod series;
pub mod win;

pub use columns::{Column, Columns};
pub use diagonals::{Diagonal, Diagonals};
pub use field::{Field, HEIGHT, WIDTH, X_ROW};
pub use game::Game;
pub use player::{Cell, GameError, Player};
pub use rows::{Row, Rows};
