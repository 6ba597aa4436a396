//! A library for playing, solving, and analyzing the game of Connect Four.

use vstd::prelude::*;

pub mod agent;
pub mod bitboard;
pub mod bits;
pub mod board;
pub mod cache;
pub mod engine;
pub mod error;
pub mod game;
pub mod solver;
pub mod value;

pub use crate::agent::{Agent, AgentDifficulty};
pub use crate::cache::{Cache, BUFFER_DELIMIT};
pub use crate::engine::{Analysis, Engine, MoveSorter, Prediction, Rating, MAX_SCORE, MIN_SCORE};
pub use crate::error::MoveError;
pub use crate::game::{Game, Status};
pub use crate::solver::{Score, Solver};

verus! {

/// The number of rows in a standard board.
pub const HEIGHT: u8 = 6;

/// The number of columns in a standard board.
pub const WIDTH: u8 = 7;

/// The number of tiles in a standard board.
pub const AREA: u8 = 42;

/// Represents the final result of a finished game.
#[derive(Clone, Copy, Debug, PartialEq, Eq, Structural)]
pub enum Outcome {
    /// The given player won the game.
    Win(Player),
    /// The game ended with no winner.
    Draw,
}

/// Represents a single player. `P1` moves first.
#[derive(Clone, Copy, Debug, PartialEq, Eq, Structural)]
pub enum Player {
    P1,
    P2,
}

impl Player {
    /// The opposing player.
    pub open spec fn spec_other(self) -> Player {
        match self {
            Player::P1 => Player::P2,
            Player::P2 => Player::P1,
        }
    }

    /// Returns the opposing player.
    pub fn other(self) -> (r: Player)
        ensures
            r == self.spec_other(),
    {
        match self {
            Player::P1 => Player::P2,
            Player::P2 => Player::P1,
        }
    }
}

} // verus!
