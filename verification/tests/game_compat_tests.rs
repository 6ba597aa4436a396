//! The game scenarios phrased over 0-indexed column slices.

use connect_four_engine::{Game, MoveError, Player, Status};

#[test]
fn game_new_game() {
    let game = Game::new();
    assert_eq!(game.board().player_bb(), 0);
    assert_eq!(game.board().occupied_bb(), 0);
    assert_eq!(game.num_moves(), 0);
}

#[test]
fn game_play_one() {
    let mut game = Game::new();
    game.play(3).unwrap();
    assert_eq!(
        game.board().player_bb(),
        0b_0000000_0000000_0000000_0000000_0000000_0000000_0000000
    );
    assert_eq!(
        game.board().occupied_bb(),
        0b_0000000_0000000_0000000_0000001_0000000_0000000_0000000
    );
    assert_eq!(game.num_moves(), 1);
}

#[test]
fn game_play_multiple() {
    let mut game1 = Game::new();
    game1.play_slice(&[3, 3, 3, 3]).unwrap();

    let mut game2 = Game::new();
    game2.play_str("4444").unwrap();

    assert_eq!(
        game1.board().player_bb(),
        0b_0000000_0000000_0000000_0000101_0000000_0000000_0000000
    );
    assert_eq!(
        game1.board().occupied_bb(),
        0b_0000000_0000000_0000000_0001111_0000000_0000000_0000000
    );
    assert_eq!(game1.num_moves(), 4);
    assert_eq!(game1, game2);
}

#[test]
fn game_out_of_bounds() {
    let mut game = Game::new();
    let err = game.play(7).unwrap_err();
    assert_eq!(err, MoveError::InvalidColumn);
}

#[test]
fn game_full_column() {
    let mut game = Game::new();
    let err = game.play_slice(&[0, 0, 0, 0, 0, 0, 0]).unwrap_err();
    assert_eq!(err, MoveError::ColumnFull);
}

#[test]
fn game_no_win_overflow() {
    let mut game = Game::new();
    assert!(!game.is_game_over());
    assert_eq!(game.status(), Status::Ongoing);

    game.play_slice(&[0, 1, 0, 1, 0, 1, 1, 2, 1, 2, 1]).unwrap();
    assert!(!game.is_game_over());
    assert_eq!(game.status(), Status::Ongoing);
}

#[test]
fn game_horizontal_win() {
    let mut game = Game::new();
    game.play_slice(&[0, 0, 1, 1, 2, 2]).unwrap();
    assert!(!game.is_game_over());
    assert_eq!(game.status(), Status::Ongoing);

    game.play(3).unwrap();
    assert!(game.is_game_over());
    assert_eq!(game.status(), Status::Win(Player::P1));
}

#[test]
fn game_vertical_win() {
    let mut game = Game::new();
    game.play_slice(&[0, 1, 0, 1, 0, 1]).unwrap();
    assert!(!game.is_game_over());
    assert_eq!(game.status(), Status::Ongoing);

    game.play(0).unwrap();
    assert!(game.is_game_over());
    assert_eq!(game.status(), Status::Win(Player::P1));
}

#[test]
fn asc_diagonal_win() {
    let mut game = Game::new();
    game.play_slice(&[3, 0, 1, 1, 2, 3, 2, 2, 3]).unwrap();
    assert!(!game.is_game_over());
    assert_eq!(game.status(), Status::Ongoing);

    game.play(3).unwrap();
    assert!(game.is_game_over());
    assert_eq!(game.status(), Status::Win(Player::P2));
}

#[test]
fn desc_diagonal_win() {
    let mut game = Game::new();
    game.play_slice(&[3, 6, 5, 5, 4, 3, 4, 4, 3]).unwrap();
    assert!(!game.is_game_over());
    assert_eq!(game.status(), Status::Ongoing);

    game.play(3).unwrap();
    assert!(game.is_game_over());
    assert_eq!(game.status(), Status::Win(Player::P2));
}

#[test]
fn game_draw() {
    let mut game = Game::new();
    game.play_slice(&[
        0, 0, 0, 0, 0, 0, 1, 1, 1, 1, 1, 1, 2, 2, 2, 2, 2, 2, 4, 3, 3, 3, 3, 3, 3, 4, 4, 4, 4,
        4, 5, 5, 5, 5, 5, 5, 6, 6, 6, 6, 6,
    ])
    .unwrap();
    assert!(!game.is_game_over());
    assert_eq!(game.status(), Status::Ongoing);

    game.play(6).unwrap();
    assert!(game.is_game_over());
    assert_eq!(game.status(), Status::Draw);
}

#[test]
fn winner_reports_either_side() {
    let mut game = Game::new();
    assert!(game.winner().is_none());
    game.play(3).unwrap();
    assert!(game.winner().is_none());
    game.play_slice(&[2, 3, 2, 3, 2, 3]).unwrap();
    assert_eq!(game.winner(), Some(Player::P1));
}

#[test]
fn play_unchecked_matches_play() {
    let mut checked = Game::new();
    let mut unchecked = Game::new();
    for col in [3u8, 3, 2, 0, 6, 2] {
        checked.play(col).unwrap();
        unchecked.play_unchecked(col);
    }
    assert_eq!(checked, unchecked);
}
