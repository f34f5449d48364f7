use vstd::prelude::*;

verus! {

/// What is known of one grid position.
#[derive(Copy, Clone, Debug, PartialEq, Eq, Structural)]
pub enum CellState {
    /// Not revealed yet.
    Closed,
    /// Revealed; the cell's value counts the mines around it.
    Open,
    /// Marked as a mine, by the player or by the game itself.
    Flagged,
    /// Revealed as a mine: the game is lost.
    Mine,
}

/// Outcome of a whole board.
#[derive(Copy, Clone, Debug, PartialEq, Eq, Structural)]
pub enum BoardState {
    /// Still being played.
    Unsolved,
    /// Every cell is solved.
    Solved,
    /// A mine was revealed.
    Failed,
}

/// One grid position and what has been observed of it.
///
/// Coordinates start at 1. `value` is meaningful only for an `Open` cell.
/// `solved` latches once the cell needs no further action.
#[derive(Copy, Clone, Debug, PartialEq, Eq, Structural)]
pub struct Cell {
    pub x: u32,
    pub y: u32,
    pub state: CellState,
    pub value: u8,
    pub solved: bool,
}

impl Cell {
    /// A fresh, closed and unsolved cell at `(x, y)`.
    pub fn closed(x: u32, y: u32) -> (c: Cell)
        ensures
            c == (Cell { x, y, state: CellState::Closed, value: 0, solved: false }),
    {
        Cell { x, y, state: CellState::Closed, value: 0, solved: false }
    }
}

} // verus!
