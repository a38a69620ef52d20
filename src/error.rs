//! Errors of the rules engine.

use vstd::prelude::*;

verus! {

/// Why a request was refused. A refused request changes nothing.
#[derive(Clone, Copy, Debug, PartialEq, Eq, Structural)]
pub enum GameError {
    /// The cell is not on the board.
    CellOutOfBounds,
    /// The cell already holds a piece.
    CellOccupied,
    /// The cell holds no piece.
    CellEmpty,
    /// The player has no piece of that kind left in hand.
    OutOfStock,
    /// Another player is to move.
    NotYourTurn,
    /// The game is not being played (still loading, or over).
    GameNotInPlayingPhase,
}

} // verus!
