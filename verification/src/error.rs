//! Errors reported when a move cannot be played. One error type covers
//! every rejection: a column that is out of range or unparsable, a full
//! column, and a finished game.

use vstd::prelude::*;

verus! {

/// A list of possible errors caused by playing a move in a game.
#[derive(Clone, Copy, Debug, PartialEq, Eq, Structural)]
pub enum MoveError {
    /// The specified column was full.
    ColumnFull,
    /// The specified column was out of bounds or could not be parsed.
    InvalidColumn,
    /// The game is over and no more moves can be played.
    GameOver,
}

impl MoveError {
    /// A short description of the error.
    pub fn message(&self) -> (r: &'static str)
        ensures
            r@.len() > 0,
    {
        proof {
            reveal_strlit("cannot play into a full column");
            reveal_strlit("column is out of bounds or cannot be parsed");
            reveal_strlit("moves cannot be played after the game ends");
        }
        match self {
            MoveError::ColumnFull => "cannot play into a full column",
            MoveError::InvalidColumn => "column is out of bounds or cannot be parsed",
            MoveError::GameOver => "moves cannot be played after the game ends",
        }
    }
}

} // verus!
