//! Concrete instances of the library's laws.

use connect_four_engine::bitboard::column_mask;
use connect_four_engine::{Agent, AgentDifficulty, Engine, Game, MoveError};

#[test]
fn canonical_key_of_mirror_matches() {
    // "324" mirrored is "564": the symmetric base-3 keys agree
    let game = Game::from_str("324").unwrap();
    let mirrored = Game::from_str("564").unwrap();
    assert_eq!(game.board().key3(), mirrored.board().key3());

    let game = Game::from_str("112233").unwrap();
    let mirrored = Game::from_str("776655").unwrap();
    assert_eq!(game.board().key3(), mirrored.board().key3());
}

#[test]
fn canonical_key_exact_values() {
    // the empty position folds to zero
    assert_eq!(Game::new().board().key3(), 0);
    // one piece in the center column: one opponent digit, one trailing
    // zero, three empty columns on the smaller side
    assert_eq!(Game::from_str("4").unwrap().board().key3(), 54);
}

#[test]
fn canonical_key_of_symmetric_position() {
    // a symmetric position equals its own mirror image
    let game = Game::from_str("444").unwrap();
    let board = game.board();
    let mut mirrored = board;
    mirrored.mirror();
    assert_eq!(board.key3(), mirrored.key3());
    assert_eq!(board.player_bb(), mirrored.player_bb());
}

#[test]
fn count_winning_moves_is_popcount() {
    let board = Game::from_str("112233").unwrap().board();
    for col in 0..7u8 {
        let move_bb = board.possible_bb() & column_mask(col);
        if move_bb != 0 {
            let expected = board
                .winning_bb(board.player_bb() | move_bb)
                .count_ones();
            assert_eq!(board.count_winning_moves(move_bb), expected);
        }
    }
    // dropping on column 3 completes no line yet but creates the double
    // threat on row 0
    let move_bb = board.possible_bb() & column_mask(3);
    assert_eq!(board.count_winning_moves(move_bb), 2);
}

#[test]
fn single_forced_block() {
    // the mover faces exactly one immediate winning reply: only the
    // blocking cell survives the pruning
    let board = Game::from_str("11223").unwrap().board();
    let blocking = board.possible_bb() & column_mask(3);
    assert_eq!(board.non_losing_moves_bb(), blocking);
}

#[test]
fn double_threat_leaves_no_moves() {
    // the opponent can win on either side: no move is non-losing
    let board = Game::from_str("4151624").unwrap().board();
    assert_eq!(board.non_losing_moves_bb(), 0);
}

#[test]
fn transposition_key_is_player_plus_occupied() {
    let board = Game::from_str("32164625").unwrap().board();
    assert_eq!(board.key(), board.player_bb() + board.occupied_bb());
}

#[test]
fn agent_difficulty_bands() {
    let game = Game::from_str("112233").unwrap();
    let mut engine = Engine::new();
    let analysis = engine.analyze(&game);

    // only column 3 rates Best in this position
    let mut perfect = Agent::new(AgentDifficulty::Perfect);
    assert_eq!(perfect.choose_move(&analysis), 3);

    let mut near = Agent::new(AgentDifficulty::NearPerfect);
    assert_eq!(near.choose_move(&analysis), 3);

    // an easy agent takes an immediate win when one exists
    let mut easy = Agent::new(AgentDifficulty::Easy);
    assert_eq!(easy.choose_move(&analysis), 3);

    // a random agent still only plays playable columns
    let mut random = Agent::new(AgentDifficulty::Random);
    for _ in 0..20 {
        let col = random.choose_move(&analysis);
        assert!(col < 7);
    }
}

#[test]
fn solver_matches_engine() {
    let game = Game::from_str("112233").unwrap();
    assert_eq!(connect_four_engine::Solver::solve(game), 18);
}

#[test]
fn move_error_messages() {
    assert!(!MoveError::ColumnFull.message().is_empty());
    assert!(!MoveError::InvalidColumn.message().is_empty());
    assert!(!MoveError::GameOver.message().is_empty());
}
