use connect_four_engine::{Game, MoveError, Player, Status};

#[test]
fn new_game() {
    let game = Game::new();
    assert_eq!(game.board().player_bb(), 0);
    assert_eq!(game.board().occupied_bb(), 0);
    assert_eq!(game.num_moves(), 0);
    assert!(!game.is_over());
    assert_eq!(game.status(), Status::Ongoing);
}

#[test]
fn play_one() {
    let mut game = Game::new();
    game.play(3).unwrap();
    assert_eq!(
        game.board().player_bb(),
        0b_0000000_0000000_0000000_0000000_0000000_0000000_0000000
    );
    assert_eq!(
        game.board().occupied_bb(),
        0b_0000000_0000000_0000000_0000001_0000000_0000000_0000000
    );
    assert_eq!(game.num_moves(), 1);
}

#[test]
fn play_multiple() {
    let mut game1 = Game::new();
    game1.play_slice(&[3, 3, 3, 3]).unwrap();

    let mut game2 = Game::new();
    game2.play_str("4444").unwrap();

    assert_eq!(
        game1.board().player_bb(),
        0b_0000000_0000000_0000000_0000101_0000000_0000000_0000000
    );
    assert_eq!(
        game1.board().occupied_bb(),
        0b_0000000_0000000_0000000_0001111_0000000_0000000_0000000
    );
    assert_eq!(game1.num_moves(), 4);
    assert_eq!(game1, game2);
}

#[test]
fn out_of_bounds() {
    let mut game = Game::new();
    let result = game.play(7);
    assert_eq!(result, Err(MoveError::InvalidColumn));
}

#[test]
fn full_column() {
    let mut game = Game::new();
    let result = game.play_str("1111111");
    assert_eq!(result, Err(MoveError::ColumnFull));
}

#[test]
fn no_win_overflow() {
    // _ X _ _ _ _ _
    // _ X _ _ _ _ _
    // _ X _ _ _ _ _
    // X O _ _ _ _ _
    // X O O _ _ _ _
    // X O O _ _ _ _
    let game = Game::from_str("12121223232").unwrap();

    assert!(!game.is_over());
    assert_eq!(game.status(), Status::Ongoing);
    assert_eq!(game.win_coords(), None);
}

fn test_end_game(moves: &str, status: Status, win_coords: Option<[(u8, u8); 4]>) {
    let (first, last) = moves.split_at(moves.len() - 1);

    let mut game = Game::from_str(first).unwrap();
    assert!(!game.is_over());
    assert_eq!(game.status(), Status::Ongoing);

    game.play_str(last).unwrap();
    assert!(game.is_over());
    assert_eq!(game.status(), status);
    assert_eq!(game.win_coords(), win_coords);
    assert_eq!(game.play(0), Err(MoveError::GameOver));
}

#[test]
fn horizontal_win() {
    // O O O _ _ _ _
    // X X X X _ _ _ (bottom)
    test_end_game(
        "1122334",
        Status::Win(Player::P1),
        Some([(0, 0), (1, 0), (2, 0), (3, 0)]),
    )
}

#[test]
fn vertical_win() {
    test_end_game(
        "1212121",
        Status::Win(Player::P1),
        Some([(0, 0), (0, 1), (0, 2), (0, 3)]),
    )
}

#[test]
fn ascending_diagonal_win() {
    test_end_game(
        "4122343344",
        Status::Win(Player::P2),
        Some([(0, 0), (1, 1), (2, 2), (3, 3)]),
    )
}

#[test]
fn descending_diagonal_win() {
    test_end_game(
        "4766545544",
        Status::Win(Player::P2),
        Some([(3, 3), (4, 2), (5, 1), (6, 0)]),
    )
}

#[test]
fn multiple_wins() {
    // the ascending diagonal is reported when several lines exist
    test_end_game(
        "1226716747711226634543355137524",
        Status::Win(Player::P1),
        Some([(0, 0), (1, 1), (2, 2), (3, 3)]),
    )
}

#[test]
fn last_win() {
    test_end_game(
        "111112222233333144444255555376666667777754",
        Status::Win(Player::P2),
        Some([(0, 5), (1, 5), (2, 5), (3, 5)]),
    )
}

#[test]
fn draw() {
    test_end_game(
        "111111222222333333544444455555666666777777",
        Status::Draw,
        None,
    )
}

#[test]
fn game_format_string() {
    // _ _ _ _ _ _ X
    // _ _ _ _ _ X O
    // _ _ _ _ O O X
    // _ _ _ O X X O
    // _ _ X X O O X
    // _ X O O X X O
    let game = Game::from_str("233444555566666777777").unwrap();

    assert_eq!(game.board_string(), "_ _ _ _ _ _ X\n_ _ _ _ _ X O\n_ _ _ _ O O X\n_ _ _ O X X O\n_ _ X X O O X\n_ X O O X X O");
}

#[test]
fn undo_moves() {
    let init_game = Game::new();
    let mut game = Game::from_str("111112222233333144444255555376666667777754").unwrap();

    for i in 0..game.num_moves() {
        assert_eq!(game.num_moves(), 42 - i);
        game.undo();
    }

    assert_eq!(init_game, game);
    assert_eq!(game.num_moves(), 0);
    assert_eq!(game.moves().len(), 0);
    assert_eq!(game.undo(), None);
}

#[test]
fn moves_str_round_trip() {
    let mut game = Game::new();
    assert_eq!(game.moves_str(), "");
    game.play_str("1234567").unwrap();
    assert_eq!(game.moves_str(), "1234567");
    assert_eq!(game.moves(), &vec![0, 1, 2, 3, 4, 5, 6]);
}

#[test]
fn turns_alternate() {
    let mut game = Game::new();
    assert_eq!(game.turn(), Player::P1);
    game.play(3).unwrap();
    assert_eq!(game.turn(), Player::P2);
    game.play(1).unwrap();
    assert_eq!(game.turn(), Player::P1);
}

#[test]
fn at_and_matrix_agree() {
    let mut game = Game::new();
    game.play(0).unwrap();
    game.play(1).unwrap();

    assert_eq!(game.at(0, 0), Some(Player::P1));
    assert_eq!(game.at(1, 0), Some(Player::P2));
    assert_eq!(game.at(2, 0), None);

    let m = game.matrix();
    for y in 0..6u8 {
        for x in 0..7u8 {
            assert_eq!(m[y as usize][x as usize], game.at(x, y));
        }
    }
}

#[test]
fn perft_anchors() {
    let expected: [u64; 7] = [1, 7, 49, 238, 1120, 4263, 16422];
    for (depth, count) in expected.iter().enumerate() {
        assert_eq!(Game::perft(depth as u8), *count);
    }
}

#[test]
fn play_undo_round_trip() {
    // playing any legal column and undoing it restores the position
    let start = Game::from_str("32164625").unwrap();
    for col in 0..7u8 {
        let mut game = Game::from_str("32164625").unwrap();
        if game.can_play(col).is_ok() {
            game.play(col).unwrap();
            assert_eq!(game.undo(), Some(col));
            assert_eq!(game, start);
        }
    }
}

#[test]
fn errors_leave_the_game_unchanged() {
    // a rejected batch of moves changes nothing, even when a prefix of it
    // was playable
    let mut game = Game::from_str("44").unwrap();
    let before = Game::from_str("44").unwrap();

    assert_eq!(game.play_str("18"), Err(MoveError::InvalidColumn));
    assert_eq!(game, before);

    assert_eq!(game.play_slice(&[0, 1, 9]), Err(MoveError::InvalidColumn));
    assert_eq!(game, before);

    assert_eq!(game.play_str("3x"), Err(MoveError::InvalidColumn));
    assert_eq!(game, before);
    assert_eq!(game.num_moves(), 2);
}
