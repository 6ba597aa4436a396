use connect_four_engine::{Cache, Engine, Game, MoveSorter, Outcome, Player, Rating};

#[test]
fn last_move() {
    let game = Game::from_str("112233").unwrap();
    let mut engine = Engine::new();

    assert_eq!(engine.evaluate(&game), 18);
    assert_eq!(
        engine.evaluate_next(&game),
        [-2, -1, -1, 18, -2, -2, -3].map(Some)
    );
}

#[test]
fn analysis_derivations() {
    let game = Game::from_str("112233").unwrap();
    let mut engine = Engine::new();
    let analysis = engine.analyze(&game);

    assert_eq!(analysis.player(), Player::P1);
    assert_eq!(analysis.best_score(), Some(18));
    assert_eq!(analysis.best_moves(), vec![3]);
    assert_eq!(analysis.sorted_moves(), vec![3, 1, 2, 0, 4, 5, 6]);

    // predictions: the winning move ends the game with the mover's last
    // piece in hand
    assert_eq!(analysis.predict(18), (Outcome::Win(Player::P1), 1));
    assert_eq!(analysis.predict(0), (Outcome::Draw, 18));
    assert_eq!(analysis.predict(-2), (Outcome::Win(Player::P2), 17));

    // amplified scores: the balanced score doubled one ply before the end
    assert_eq!(analysis.amplified_score(18), 42);
    assert_eq!(analysis.amplified_score(-2), -5);

    let ratings = analysis.ratings();
    assert_eq!(ratings[3], Some(Rating::Best));
    assert_eq!(ratings[0], Some(Rating::Blunder));
    assert_eq!(ratings[1], Some(Rating::Blunder));
}

#[test]
fn node_count_resets() {
    // a position with no immediate win makes the search visit nodes
    let game = Game::from_str("4151624").unwrap();
    let mut engine = Engine::new();
    engine.evaluate(&game);
    assert!(engine.node_count() > 0);
}

#[test]
fn immediate_win_scores() {
    // playing on after a finished game is rejected
    let err = Game::from_str("1212121222").unwrap_err();
    assert_eq!(err, connect_four_engine::MoveError::GameOver);

    // P1 is about to complete a vertical line
    let game = Game::from_str("121212").unwrap();
    let mut engine = Engine::new();
    // P1 completes column 0 on the next move: 36 tiles stay unplayed, so
    // the winner keeps 18 pieces in hand
    assert_eq!(engine.evaluate(&game), 18);
}

#[test]
fn forced_loss_is_fastest() {
    // the opponent holds two immediate winning replies: the mover is lost,
    // as slowly as the loser can make it
    let game = Game::from_str("4151624").unwrap();
    let mut engine = Engine::new();
    assert_eq!(engine.evaluate(&game), -17);
}

#[test]
fn mid_game_score() {
    let game = Game::from_str("32164625").unwrap();
    let mut engine = Engine::new();
    assert_eq!(engine.evaluate(&game), 11);
}

#[test]
fn mid_game_column_scores() {
    let game = Game::from_str("4444413222453233535").unwrap();
    let mut engine = Engine::new();
    assert_eq!(
        engine.evaluate_next(&game),
        [
            Some(-3),
            Some(11),
            Some(-2),
            None,
            Some(12),
            Some(-3),
            Some(-3)
        ]
    );
}

#[test]
fn best_score_is_the_evaluation() {
    // the position's score is the best reply score among the columns
    let game = Game::from_str("112233").unwrap();
    let mut engine = Engine::new();
    let score = engine.evaluate(&game);
    let analysis = engine.analyze(&game);
    assert_eq!(analysis.best_score(), Some(score));
}

#[test]
fn move_sorter_orders_by_threats() {
    let mut moves = MoveSorter::new();
    moves.insert(10, 2);
    moves.insert(20, 0);
    moves.insert(30, 1);
    // highest threat count comes out first
    assert_eq!(moves.next(), Some(10));
    assert_eq!(moves.next(), Some(30));
    assert_eq!(moves.next(), Some(20));
    assert_eq!(moves.next(), None);

    // among equal counts, the move inserted later comes out first
    let mut moves = MoveSorter::new();
    moves.insert(1, 5);
    moves.insert(2, 5);
    assert_eq!(moves.next(), Some(2));
    assert_eq!(moves.next(), Some(1));
}

fn push_le32(bytes: &mut Vec<u8>, v: u32) {
    bytes.push((v & 0xff) as u8);
    bytes.push(((v >> 8) & 0xff) as u8);
    bytes.push(((v >> 16) & 0xff) as u8);
    bytes.push(((v >> 24) & 0xff) as u8);
}

#[test]
fn opening_book_is_consulted() {
    let game = Game::from_str("44").unwrap();
    let key3 = game.board().key3() as u32;

    // a book whose only entry scores this very position as a draw
    let mut bytes = vec![4u8];
    for score in -18i8..=18 {
        if score == 0 {
            push_le32(&mut bytes, key3);
        }
        push_le32(&mut bytes, 1);
    }
    let book = Cache::from_bytes(bytes).unwrap();
    assert_eq!(book.len(), 1);

    let mut engine = Engine::with_opening_book(book);
    assert_eq!(engine.evaluate(&game), 0);
}

#[test]
fn transposition_table_can_be_cleared() {
    let game = Game::from_str("4151624").unwrap();
    let mut engine = Engine::new();
    engine.evaluate(&game);
    engine.clear_tt();
    assert_eq!(engine.tt_len(), 0);
    // the engine still answers correctly from a cold table
    assert_eq!(engine.evaluate(&game), -17);
}
