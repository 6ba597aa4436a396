//! AI agents to play moves in Connect Four games: each difficulty keeps
//! the moves of some minimum quality and draws one of them at random.

use vstd::prelude::*;

verus! {

use crate::Outcome;
use crate::engine::{
    Analysis,
    Rating,
    Prediction,
    spec_best_score,
    spec_rate,
    spec_predict,
};
use rand::rngs::ThreadRng;
use rand::Rng;

/// The thread-local random number generator of the `rand` crate.
#[verifier::external_type_specification]
#[verifier::external_body]
pub struct ExThreadRng(ThreadRng);

/// Relies on `rand::rng`: a handle to the thread-local generator.
#[verifier::external_body]
fn fresh_rng() -> ThreadRng {
    rand::rng()
}

/// Relies on `rand::Rng::random_range` over `0..n`: a draw below the bound;
/// nothing more is promised of a random value. The range must not be empty.
#[verifier::external_body]
fn random_below(rng: &mut ThreadRng, n: usize) -> (r: usize)
    requires
        n > 0,
    ensures
        r < n,
{
    rng.random_range(0..n)
}

/// How strongly an agent plays.
#[derive(Clone, Copy, Debug)]
pub enum AgentDifficulty {
    Random,
    Easy,
    Medium,
    Hard,
    NearPerfect,
    Perfect,
}

/// How high a rating ranks: every band outranks the bands below it.
pub open spec fn spec_rating_rank(r: Rating) -> int {
    match r {
        Rating::Blunder => 0,
        Rating::Mistake => 1,
        Rating::Inaccuracy => 2,
        Rating::Good => 3,
        Rating::Best => 4,
    }
}

/// Whether a rating meets a minimum band.
fn rating_at_least(r: Rating, min: Rating) -> (b: bool)
    ensures
        b == (spec_rating_rank(r) >= spec_rating_rank(min)),
{
    let rr: u8 = match r {
        Rating::Blunder => 0,
        Rating::Mistake => 1,
        Rating::Inaccuracy => 2,
        Rating::Good => 3,
        Rating::Best => 4,
    };
    let rm: u8 = match min {
        Rating::Blunder => 0,
        Rating::Mistake => 1,
        Rating::Inaccuracy => 2,
        Rating::Good => 3,
        Rating::Best => 4,
    };
    rr >= rm
}

/// Column `c` is playable and its rating meets the band.
pub open spec fn spec_meets_band(a: Analysis, c: int, band: Rating) -> bool {
    match spec_best_score(a.spec_scores(), 7) {
        None => false,
        Some(bv) => a.spec_scores()[c] is Some && spec_rating_rank(
            spec_rate(a.spec_scores()[c]->0, bv, a.spec_num_moves(), a.spec_player()),
        ) >= spec_rating_rank(band),
    }
}

/// Column `c` is playable and predicted to win for the side to move within
/// the given number of plies.
pub open spec fn spec_wins_within(a: Analysis, c: int, lookahead: u8) -> bool {
    &&& a.spec_scores()[c] is Some
    &&& spec_predict(a.spec_scores()[c]->0, a.spec_num_moves(), a.spec_player()).0 == Outcome::Win(
        a.spec_player(),
    )
    &&& spec_predict(a.spec_scores()[c]->0, a.spec_num_moves(), a.spec_player()).1 <= lookahead
}

/// Column `c` is playable and not predicted to lose for the side to move
/// within the given number of plies.
pub open spec fn spec_survives(a: Analysis, c: int, lookahead: u8) -> bool {
    &&& a.spec_scores()[c] is Some
    &&& !(spec_predict(a.spec_scores()[c]->0, a.spec_num_moves(), a.spec_player()).0
        == Outcome::Win(a.spec_player().spec_other()) && spec_predict(
        a.spec_scores()[c]->0,
        a.spec_num_moves(),
        a.spec_player(),
    ).1 <= lookahead)
}

/// An agent that picks moves of a chosen quality band at random.
pub struct Agent {
    difficulty: AgentDifficulty,
    rng: ThreadRng,
}

impl Agent {
    /// The difficulty this agent plays at.
    pub closed spec fn spec_difficulty(self) -> AgentDifficulty {
        self.difficulty
    }

    /// Creates an agent of the given difficulty.
    pub fn new(difficulty: AgentDifficulty) -> (r: Agent)
        ensures
            r.spec_difficulty() == difficulty,
    {
        Agent { difficulty, rng: fresh_rng() }
    }

    /// Chooses a playable column: one whose rating meets the difficulty's
    /// band when any does, and any playable column otherwise. An easy agent
    /// takes a move that wins within one ply whenever one exists. The
    /// position must have a playable column.
    pub fn choose_move(&mut self, analysis: &Analysis) -> (r: u8)
        requires
            exists|c: int| 0 <= c < 7 && (#[trigger] analysis.spec_scores()[c]) is Some,
        ensures
            r < 7,
            analysis.spec_scores()[r as int] is Some,
            (old(self).spec_difficulty() is Medium && (exists|c: int|
                0 <= c < 7 && #[trigger] spec_meets_band(*analysis, c, Rating::Mistake)))
                ==> spec_meets_band(*analysis, r as int, Rating::Mistake),
            (old(self).spec_difficulty() is Hard && (exists|c: int|
                0 <= c < 7 && #[trigger] spec_meets_band(*analysis, c, Rating::Inaccuracy)))
                ==> spec_meets_band(*analysis, r as int, Rating::Inaccuracy),
            (old(self).spec_difficulty() is NearPerfect && (exists|c: int|
                0 <= c < 7 && #[trigger] spec_meets_band(*analysis, c, Rating::Good)))
                ==> spec_meets_band(*analysis, r as int, Rating::Good),
            (old(self).spec_difficulty() is Perfect && (exists|c: int|
                0 <= c < 7 && #[trigger] spec_meets_band(*analysis, c, Rating::Best)))
                ==> spec_meets_band(*analysis, r as int, Rating::Best),
            (old(self).spec_difficulty() is Easy && (exists|c: int|
                0 <= c < 7 && #[trigger] spec_wins_within(*analysis, c, 1))) ==> spec_wins_within(
                *analysis,
                r as int,
                1,
            ),
    {
        let mut possible_moves: Vec<u8> = match self.difficulty {
            AgentDifficulty::Random => Vec::new(),
            AgentDifficulty::Easy => Self::filter_moves_by_lookahead(analysis, 1),
            AgentDifficulty::Medium => Self::filter_moves_by_rating(analysis, Rating::Mistake),
            AgentDifficulty::Hard => Self::filter_moves_by_rating(analysis, Rating::Inaccuracy),
            AgentDifficulty::NearPerfect => Self::filter_moves_by_rating(analysis, Rating::Good),
            AgentDifficulty::Perfect => Self::filter_moves_by_rating(analysis, Rating::Best),
        };
        if possible_moves.len() == 0 {
            let scores: [Option<i8>; 7] = analysis.scores();
            let mut col: usize = 0;
            while col < 7
                invariant
                    col <= 7,
                    forall|k: int|
                        0 <= k < possible_moves@.len() ==> (#[trigger] possible_moves@[k]) < 7
                            && analysis.spec_scores()[possible_moves@[k] as int] is Some,
                    forall|cc: int|
                        0 <= cc < col && (#[trigger] analysis.spec_scores()[cc]) is Some
                            ==> possible_moves@.len() > 0,
                    scores@ == analysis.spec_scores(),
                decreases 7 - col,
            {
                if scores[col].is_some() {
                    possible_moves.push(col as u8);
                }
                col = col + 1;
            }
        }
        assert(possible_moves@.len() > 0);
        let n: usize = possible_moves.len();
        let i: usize = random_below(&mut self.rng, n);
        let chosen: u8 = possible_moves[i];
        proof {
            assert(possible_moves@.contains(possible_moves@[i as int]));
        }
        chosen
    }

    /// The columns whose rating meets the band, left to right: exactly
    /// those, each once.
    fn filter_moves_by_rating(analysis: &Analysis, worst_rating: Rating) -> (r: Vec<u8>)
        ensures
            forall|k: int|
                0 <= k < r@.len() ==> (#[trigger] r@[k]) < 7 && analysis.spec_scores()[r@[
                    k] as int] is Some && spec_meets_band(*analysis, r@[k] as int, worst_rating),
            forall|c: int|
                0 <= c < 7 && #[trigger] spec_meets_band(*analysis, c, worst_rating)
                    ==> r@.contains(c as u8),
    {
        let ratings: [Option<Rating>; 7] = analysis.ratings();
        let mut possible_moves: Vec<u8> = Vec::new();
        let mut col: usize = 0;
        while col < 7
            invariant
                col <= 7,
                forall|c: int|
                    0 <= c < 7 ==> ((#[trigger] ratings@[c]) is Some
                        ==> analysis.spec_scores()[c] is Some),
                forall|c: int|
                    0 <= c < 7 ==> ((#[trigger] ratings@[c]) matches Some(rt)
                        ==> spec_best_score(analysis.spec_scores(), 7) matches Some(bv)
                        && rt == spec_rate(
                        analysis.spec_scores()[c]->0,
                        bv,
                        analysis.spec_num_moves(),
                        analysis.spec_player(),
                    )),
                forall|c: int|
                    0 <= c < 7 ==> ((#[trigger] ratings@[c]) is None ==> !spec_meets_band(
                        *analysis,
                        c,
                        worst_rating,
                    )),
                forall|k: int|
                    0 <= k < possible_moves@.len() ==> (#[trigger] possible_moves@[k]) < 7
                        && analysis.spec_scores()[possible_moves@[k] as int] is Some
                        && spec_meets_band(*analysis, possible_moves@[k] as int, worst_rating),
                forall|c: int|
                    0 <= c < col && #[trigger] spec_meets_band(*analysis, c, worst_rating)
                        ==> possible_moves@.contains(c as u8),
            decreases 7 - col,
        {
            let ghost before = possible_moves@;
            if let Some(rating) = ratings[col] {
                if rating_at_least(rating, worst_rating) {
                    possible_moves.push(col as u8);
                }
            }
            col = col + 1;
            proof {
                assert forall|c: int|
                    0 <= c < col && #[trigger] spec_meets_band(*analysis, c, worst_rating) implies
                    possible_moves@.contains(c as u8) by {
                    if c < col - 1 {
                        let k = choose|k: int| 0 <= k < before.len() && before[k] == c as u8;
                        assert(possible_moves@[k] == c as u8);
                    } else {
                        assert(possible_moves@.last() == c as u8);
                    }
                }
            }
        }
        possible_moves
    }

    /// The columns that win within the lookahead when any does — exactly
    /// those — and otherwise the columns that do not lose within it.
    fn filter_moves_by_lookahead(analysis: &Analysis, lookahead: u8) -> (r: Vec<u8>)
        ensures
            forall|k: int|
                0 <= k < r@.len() ==> (#[trigger] r@[k]) < 7 && analysis.spec_scores()[r@[
                    k] as int] is Some,
            (exists|c: int| 0 <= c < 7 && #[trigger] spec_wins_within(*analysis, c, lookahead))
                ==> ((forall|k: int|
                0 <= k < r@.len() ==> spec_wins_within(*analysis, (#[trigger] r@[k]) as int,
                lookahead)) && r@.len() > 0),
            (forall|c: int| 0 <= c < 7 ==> !(#[trigger] spec_wins_within(*analysis, c, lookahead)))
                ==> (forall|k: int|
                0 <= k < r@.len() ==> spec_survives(*analysis, (#[trigger] r@[k]) as int,
                lookahead)),
    {
        let predictions: [Option<Prediction>; 7] = analysis.predictions();
        let me = analysis.player();
        let mut winning: Vec<u8> = Vec::new();
        let mut col: usize = 0;
        while col < 7
            invariant
                col <= 7,
                me == analysis.spec_player(),
                forall|c: int|
                    0 <= c < 7 ==> #[trigger] predictions@[c] == (match analysis.spec_scores()[c] {
                        None => None::<Prediction>,
                        Some(v) => Some(
                            spec_predict(v, analysis.spec_num_moves(), analysis.spec_player()),
                        ),
                    }),
                forall|k: int|
                    0 <= k < winning@.len() ==> (#[trigger] winning@[k]) < 7
                        && spec_wins_within(*analysis, winning@[k] as int, lookahead),
                forall|c: int|
                    0 <= c < col && #[trigger] spec_wins_within(*analysis, c, lookahead)
                        ==> winning@.contains(c as u8),
            decreases 7 - col,
        {
            let ghost before = winning@;
            if let Some(prediction) = predictions[col] {
                // Can win in `lookahead` moves or less
                if prediction.0 == Outcome::Win(me) && prediction.1 <= lookahead {
                    winning.push(col as u8);
                }
            }
            col = col + 1;
            proof {
                assert forall|c: int|
                    0 <= c < col && #[trigger] spec_wins_within(*analysis, c, lookahead) implies
                    winning@.contains(c as u8) by {
                    if c < col - 1 {
                        let k = choose|k: int| 0 <= k < before.len() && before[k] == c as u8;
                        assert(winning@[k] == c as u8);
                    } else {
                        assert(winning@.last() == c as u8);
                    }
                }
            }
        }
        if winning.len() > 0 {
            return winning;
        }
        let mut surviving: Vec<u8> = Vec::new();
        let mut col: usize = 0;
        while col < 7
            invariant
                col <= 7,
                me == analysis.spec_player(),
                forall|c: int|
                    0 <= c < 7 ==> #[trigger] predictions@[c] == (match analysis.spec_scores()[c] {
                        None => None::<Prediction>,
                        Some(v) => Some(
                            spec_predict(v, analysis.spec_num_moves(), analysis.spec_player()),
                        ),
                    }),
                forall|k: int|
                    0 <= k < surviving@.len() ==> (#[trigger] surviving@[k]) < 7
                        && analysis.spec_scores()[surviving@[k] as int] is Some && spec_survives(
                        *analysis,
                        surviving@[k] as int,
                        lookahead,
                    ),
            decreases 7 - col,
        {
            if let Some(prediction) = predictions[col] {
                // Exclude moves that lose in `lookahead` moves or less
                if !(prediction.0 == Outcome::Win(me.other()) && prediction.1 <= lookahead) {
                    surviving.push(col as u8);
                }
            }
            col = col + 1;
        }
        surviving
    }
}

} // verus!
