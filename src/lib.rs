//! Core of an autonomous Minesweeper player: the board model fed by a screen
//! observer, the palette that decodes what the observer sees, and the
//! deduction engine that decides which cell to open or flag next.

pub mod board;
pub mod cell;
pub mod display;
pub mod engine;
pub mod observe;
pub mod palette;
mod random;
pub mod rules;
pub mod screen;
pub mod text;

pub use board::{Action, ActionKind, Board};
pub use cell::{BoardState, Cell, CellState};
pub use engine::{SolverEngine, Step, DEFAULT_STEP_LIMIT, STALL_LIMIT};
pub use observe::Refresh;
pub use palette::{
    color_to_state, decode_color, decode_pixel, pack_rgb, rgb_to_hex, state_to_color, Rgb,
    ASSIST_COLOR,
};
pub use rules::Verdict;
pub use screen::{App, CurrentScreen, KeyInput};
pub use text::{color_background, color_text, normalized};
