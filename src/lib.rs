//! A falling-block puzzle game: piece geometry, the board with its collision,
//! stamping and row-clearing rules, and a renderer that turns board states
//! into a minimal list of terminal paint instructions.
//!
//! Coordinates of a shape are kept in half-cell units, so that shapes whose
//! pivot lies between two cells rotate exactly in integer arithmetic.

mod board;
mod geometry;
mod input;
mod menu;
mod render;
mod rows;

pub use board::{GameState, GameView};
pub use geometry::{Collision, PieceView, Player, PlayerMove, Shape, CATALOG_LEN};
pub use input::{event_for, InputEvent, Key};
pub use menu::{Highscores, MenuAction, MenuScreen, Settings, User, HIGHSCORE_CAP};
pub use rows::fill_cleared_rows;
pub use render::{
    Instruction, InstructionView, Output, OutputView, Paint, BLOCK_HEIGHT, BLOCK_WIDTH, SCORE_ROW,
    SCREEN_HEIGHT, SCREEN_WIDTH, STALE,
};

use vstd::prelude::*;

verus! {

/// How many rows the board has.
pub const ROWS: usize = 20;

/// How many columns the board has.
pub const COLUMNS: usize = 16;

/// How many colors the palette holds; index 0 is the empty cell.
pub const PALETTE_LEN: usize = 7;

} // verus!
