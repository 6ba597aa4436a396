//! A one-shot solver interface: builds a fresh engine, solves one game.

use vstd::prelude::*;

verus! {

use crate::engine::Engine;
use crate::game::Game;
use crate::cache::SCORE_CAP;
use crate::board::{spec_winning, spec_has_line};

/// The size of the score of a game position.
pub type Score = i8;

/// Represents the solver for a Connect Four game.
pub struct Solver {
    engine: Engine,
}

impl Solver {
    /// Solve a game, returning its score.
    pub fn solve(game: Game) -> (r: Score)
        ensures
            -SCORE_CAP <= r <= SCORE_CAP,
            ({
                let b = game.spec_board();
                (spec_winning(b.player_bb, b.occupied_bb) & b.spec_possible() != 0) ==> r
                    == b.spec_pos_score(true)
            }),
            ({
                let b = game.spec_board();
                (!spec_has_line(b.spec_opponent()) && spec_winning(b.player_bb, b.occupied_bb)
                    & b.spec_possible() != 0) ==> r == crate::value::spec_value(b)
            }),
            game.spec_board().num_moves >= 42 ==> r == 0,
            ({
                let b = game.spec_board();
                (!spec_has_line(b.player_bb) && !spec_has_line(b.spec_opponent())) ==> r
                    == crate::value::spec_value(b)
            }),
    {
        let mut solver: Solver = Solver { engine: Engine::new() };
        solver.engine.evaluate(&game)
    }
}

} // verus!
