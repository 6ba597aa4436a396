//! Functionality for creating and playing the game of Connect Four.
//!
//! A [`Game`] is a board together with the history of columns played. Every
//! game is reachable: its board is exactly the replay of its history, which
//! is what makes undoing possible and keeps the board well-formed.

use vstd::prelude::*;

verus! {

use crate::Player;
use crate::board::{
    Board,
    WinDirection,
    spec_has_line,
    lemma_play_col_wf,
    lemma_play_undo,
    lemma_played_col_nonempty,
    lemma_empty_wf,
    lemma_pop_columns,
    col_height,
};
use crate::bitboard::spec_col;
use crate::error::MoveError;
use std::collections::HashSet;
use vstd::string::StringSliceAdditionalSpecFns;
use vstd::string::StringExecFns;

broadcast use vstd::std_specs::hash::group_hash_axioms;

/// Represents the state of a game.
#[derive(Debug, PartialEq, Eq, Structural, Clone, Copy)]
pub enum Status {
    /// The game has ended in a draw.
    Draw,
    /// The game is still ongoing.
    Ongoing,
    /// The game has ended with a winner represented by [`Player`].
    Win(Player),
}

/// The board reached by playing the given columns from the start.
pub open spec fn spec_replay(cs: Seq<u8>) -> Board
    decreases cs.len(),
{
    if cs.len() == 0 {
        Board { player_bb: 0, occupied_bb: 0, num_moves: 0 }
    } else {
        spec_replay(cs.drop_last()).spec_play_col(cs.last() as int)
    }
}

/// The given columns are a legal replay: every move names an existing,
/// open column of the position it is played in.
pub open spec fn spec_replay_ok(cs: Seq<u8>) -> bool
    decreases cs.len(),
{
    if cs.len() == 0 {
        true
    } else {
        &&& spec_replay_ok(cs.drop_last())
        &&& cs.last() < 7
        &&& spec_replay(cs.drop_last()).spec_is_open(cs.last() as int)
    }
}

/// A legal replay reaches a well-formed board, one piece per move.
pub proof fn lemma_replay_wf(cs: Seq<u8>)
    requires
        spec_replay_ok(cs),
    ensures
        spec_replay(cs).wf(),
        spec_replay(cs).num_moves == cs.len(),
    decreases cs.len(),
{
    if cs.len() == 0 {
        lemma_empty_wf();
    } else {
        lemma_replay_wf(cs.drop_last());
        lemma_play_col_wf(spec_replay(cs.drop_last()), cs.last() as int);
    }
}

/// Whose turn it is after the given number of moves: the first player moves
/// on even plies.
pub open spec fn spec_turn(num_moves: u8) -> Player {
    if num_moves % 2 == 0 {
        Player::P1
    } else {
        Player::P2
    }
}

/// The status of a position: won by the player who just completed a line,
/// drawn when the board has filled up, and ongoing otherwise.
pub open spec fn spec_status(b: Board) -> Status {
    if spec_has_line(b.spec_opponent()) {
        Status::Win(spec_turn(b.num_moves).spec_other())
    } else if b.num_moves >= 42 {
        Status::Draw
    } else {
        Status::Ongoing
    }
}

/// The winner of a position, if either side holds a line.
pub open spec fn spec_winner(b: Board) -> Option<Player> {
    if spec_has_line(b.player_bb) {
        Some(spec_turn(b.num_moves))
    } else if spec_has_line(b.spec_opponent()) {
        Some(spec_turn(b.num_moves).spec_other())
    } else {
        None
    }
}

/// Whether a move can be played, and why not when it cannot: no move is
/// accepted after the game ends, a column must exist, and it must not be
/// full. A playable move reports the column's piece count.
pub open spec fn spec_can_play(b: Board, col: u8) -> Result<u8, MoveError> {
    if spec_status(b) != Status::Ongoing {
        Err(MoveError::GameOver)
    } else if col >= 7 {
        Err(MoveError::InvalidColumn)
    } else if !b.spec_is_open(col as int) {
        Err(MoveError::ColumnFull)
    } else {
        Ok(col_height(spec_col(b.occupied_bb, col as int)) as u8)
    }
}

/// The history and first rejection, if any, after playing a sequence of
/// columns onto a history.
pub open spec fn spec_play_all(cs: Seq<u8>, s: Seq<u8>) -> (Seq<u8>, Option<MoveError>)
    decreases s.len(),
{
    if s.len() == 0 {
        (cs, None)
    } else {
        match spec_can_play(spec_replay(cs), s[0]) {
            Err(e) => (cs, Some(e)),
            Ok(_) => spec_play_all(cs.push(s[0]), s.drop_first()),
        }
    }
}

/// The 0-indexed column a move byte stands for: the ASCII digits `'1'`
/// through `'9'` name columns 0 through 8; anything else is rejected.
pub open spec fn spec_byte_col(b: u8) -> Option<u8> {
    if 49 <= b <= 57 {
        Some((b - 49) as u8)
    } else {
        None
    }
}

/// The history and first rejection, if any, after playing a string of
/// 1-indexed move digits, given as its UTF-8 bytes, onto a history.
pub open spec fn spec_play_all_chars(cs: Seq<u8>, s: Seq<u8>) -> (Seq<u8>, Option<MoveError>)
    decreases s.len(),
{
    if s.len() == 0 {
        (cs, None)
    } else {
        match spec_byte_col(s[0]) {
            None => (cs, Some(MoveError::InvalidColumn)),
            Some(col) => match spec_can_play(spec_replay(cs), col) {
                Err(e) => (cs, Some(e)),
                Ok(_) => spec_play_all_chars(cs.push(col), s.drop_first()),
            },
        }
    }
}

/// Represents a Connect Four game.
#[derive(Debug)]
pub struct Game {
    board: Board,
    /// A vector of all the moves played in the game.
    moves: Vec<u8>,
}

impl Game {
    /// Every game is a legal replay of its history.
    #[verifier::type_invariant]
    spec fn inv(self) -> bool {
        spec_replay_ok(self.moves@) && self.board == spec_replay(self.moves@)
    }

    /// The position this game has reached.
    pub closed spec fn spec_board(self) -> Board {
        self.board
    }

    /// The columns played so far.
    pub closed spec fn spec_moves(self) -> Seq<u8> {
        self.moves@
    }

    /// Creates a new game with an empty board.
    pub fn new() -> (r: Game)
        ensures
            r.spec_moves() == Seq::<u8>::empty(),
            r.spec_board() == (Board { player_bb: 0, occupied_bb: 0, num_moves: 0 }),
    {
        Game { board: Board::new(), moves: Vec::new() }
    }

    /// Creates a new game from a string of 1-indexed columns.
    ///
    /// # Errors
    /// Returns a [`MoveError`] if any move cannot be played.
    pub fn from_str(s: &str) -> (r: Result<Game, MoveError>)
        ensures
            ({
                let (ms, e) = spec_play_all_chars(Seq::<u8>::empty(), s.spec_bytes());
                match r {
                    Ok(g) => e is None && g.spec_moves() == ms && g.spec_board() == spec_replay(ms),
                    Err(err) => e == Some(err),
                }
            }),
    {
        let mut game: Game = Game::new();
        match game.play_str(s) {
            Ok(_) => Ok(game),
            Err(e) => Err(e),
        }
    }

    /// The game's position, as a board the search can take by value.
    pub fn board(&self) -> (r: Board)
        ensures
            r == self.spec_board(),
            r.wf(),
            r == spec_replay(self.spec_moves()),
            r.num_moves == self.spec_moves().len(),
    {
        proof {
            use_type_invariant(self);
            lemma_replay_wf(self.moves@);
        }
        self.board
    }

    /// Plays the current player's piece in the given 0-indexed column.
    ///
    /// # Errors
    /// Returns a [`MoveError`] if the move cannot be played; the game is
    /// unchanged on error.
    pub fn play(&mut self, col: u8) -> (r: Result<(), MoveError>)
        ensures
            ({
                let cp = spec_can_play(old(self).spec_board(), col);
                match r {
                    Ok(_) => {
                        &&& cp is Ok
                        &&& final(self).spec_moves() == old(self).spec_moves().push(col)
                        &&& final(self).spec_board() == old(self).spec_board().spec_play_col(
                            col as int,
                        )
                    },
                    Err(e) => cp == Err::<u8, MoveError>(e) && *final(self) == *old(self),
                }
            }),
    {
        match self.can_play(col) {
            Err(e) => Err(e),
            Ok(_) => {
                proof {
                    use_type_invariant(&*self);
                    lemma_replay_wf(self.moves@);
                }
                let mut board: Board = self.board;
                board.play_unchecked(col);
                let mut ms: Vec<u8> = self.moves.clone();
                ms.push(col);
                proof {
                    assert(ms@.drop_last() =~= old(self).moves@);
                }
                *self = Game { board, moves: ms };
                Ok(())
            },
        }
    }

    /// Plays the current player's piece in the given 0-indexed column,
    /// without checking whether the game is already decided. The column must
    /// exist and must not be full.
    pub fn play_unchecked(&mut self, col: u8)
        requires
            col < 7,
            old(self).spec_board().spec_is_open(col as int),
        ensures
            final(self).spec_moves() == old(self).spec_moves().push(col),
            final(self).spec_board() == old(self).spec_board().spec_play_col(col as int),
    {
        proof {
            use_type_invariant(&*self);
            lemma_replay_wf(self.moves@);
        }
        let mut board: Board = self.board;
        board.play_unchecked(col);
        let mut ms: Vec<u8> = self.moves.clone();
        ms.push(col);
        proof {
            assert(ms@.drop_last() =~= old(self).moves@);
        }
        *self = Game { board, moves: ms };
    }

    /// Plays a sequence of moves from a slice of 0-indexed columns.
    ///
    /// # Errors
    /// Returns a [`MoveError`] for the first move that cannot be played;
    /// the game is unchanged on error.
    pub fn play_slice(&mut self, moves: &[u8]) -> (r: Result<(), MoveError>)
        ensures
            ({
                let (ms, e) = spec_play_all(old(self).spec_moves(), moves@);
                match r {
                    Ok(_) => {
                        &&& e is None
                        &&& final(self).spec_moves() == ms
                        &&& final(self).spec_board() == spec_replay(ms)
                    },
                    Err(err) => e == Some(err) && *final(self) == *old(self),
                }
            }),
    {
        proof {
            use_type_invariant(&*self);
            lemma_replay_wf(self.moves@);
        }
        let mut trial: Game = Game { board: self.board, moves: self.moves.clone() };
        let n: usize = moves.len();
        let mut i: usize = 0;
        proof {
            assert(moves@.skip(0) =~= moves@);
        }
        while i < n
            invariant
                n == moves@.len(),
                i <= n,
                trial.spec_board() == spec_replay(trial.spec_moves()),
                spec_play_all(trial.spec_moves(), moves@.skip(i as int)) == spec_play_all(
                    old(self).spec_moves(),
                    moves@,
                ),
            decreases n - i,
        {
            proof {
                assert(moves@.skip(i as int)[0] == moves@[i as int]);
                assert(moves@.skip(i as int).drop_first() =~= moves@.skip(i as int + 1));
            }
            let ghost prev = trial.spec_moves();
            match trial.play(moves[i]) {
                Ok(_) => {},
                Err(e) => {
                    proof {
                        use_type_invariant(&*self);
                    }
                    return Err(e);
                },
            }
            proof {
                assert(trial.spec_moves().drop_last() =~= prev);
            }
            i = i + 1;
        }
        proof {
            assert(moves@.skip(n as int) =~= Seq::<u8>::empty());
            use_type_invariant(&trial);
        }
        *self = trial;
        Ok(())
    }

    /// Plays a sequence of moves from a string of 1-indexed columns: each
    /// character must be an ASCII digit naming a column.
    ///
    /// # Errors
    /// Returns a [`MoveError`] for the first move that cannot be played;
    /// the game is unchanged on error.
    pub fn play_str(&mut self, moves: &str) -> (r: Result<(), MoveError>)
        ensures
            ({
                let (ms, e) = spec_play_all_chars(old(self).spec_moves(), moves.spec_bytes());
                match r {
                    Ok(_) => {
                        &&& e is None
                        &&& final(self).spec_moves() == ms
                        &&& final(self).spec_board() == spec_replay(ms)
                    },
                    Err(err) => e == Some(err) && *final(self) == *old(self),
                }
            }),
    {
        proof {
            use_type_invariant(&*self);
            lemma_replay_wf(self.moves@);
        }
        let mut trial: Game = Game { board: self.board, moves: self.moves.clone() };
        let bytes: &[u8] = moves.as_bytes();
        let n: usize = bytes.len();
        let mut i: usize = 0;
        proof {
            assert(bytes@.skip(0) =~= bytes@);
        }
        while i < n
            invariant
                n == bytes@.len(),
                bytes@ == moves.spec_bytes(),
                i <= n,
                trial.spec_board() == spec_replay(trial.spec_moves()),
                spec_play_all_chars(trial.spec_moves(), bytes@.skip(i as int))
                    == spec_play_all_chars(old(self).spec_moves(), moves.spec_bytes()),
            decreases n - i,
        {
            proof {
                assert(bytes@.skip(i as int)[0] == bytes@[i as int]);
                assert(bytes@.skip(i as int).drop_first() =~= bytes@.skip(i as int + 1));
                use_type_invariant(&*self);
            }
            let b: u8 = bytes[i];
            if b < 49 || b > 57 {
                return Err(MoveError::InvalidColumn);
            }
            let col: u8 = b - 49;
            let ghost prev = trial.spec_moves();
            match trial.play(col) {
                Ok(_) => {},
                Err(e) => {
                    proof {
                        use_type_invariant(&*self);
                    }
                    return Err(e);
                },
            }
            proof {
                assert(trial.spec_moves().drop_last() =~= prev);
            }
            i = i + 1;
        }
        proof {
            assert(bytes@.skip(n as int) =~= Seq::<u8>::empty());
            use_type_invariant(&trial);
        }
        *self = trial;
        Ok(())
    }

    /// Undoes the last move played and returns the 0-indexed column.
    /// Returns [`None`] if no moves have been made.
    pub fn undo(&mut self) -> (r: Option<u8>)
        ensures
            old(self).spec_moves().len() == 0 ==> r is None && *final(self) == *old(self),
            old(self).spec_moves().len() > 0 ==> {
                &&& r == Some(old(self).spec_moves().last())
                &&& final(self).spec_moves() == old(self).spec_moves().drop_last()
                &&& final(self).spec_board() == spec_replay(old(self).spec_moves().drop_last())
            },
    {
        proof {
            use_type_invariant(&*self);
        }
        let mut ms: Vec<u8> = self.moves.clone();
        match ms.pop() {
            None => None,
            Some(col) => {
                proof {
                    lemma_replay_wf(ms@);
                    lemma_play_undo(spec_replay(ms@), col as int);
                    lemma_played_col_nonempty(spec_replay(ms@), col as int);
                    lemma_play_col_wf(spec_replay(ms@), col as int);
                }
                let mut board: Board = self.board;
                board.undo_unchecked(col);
                *self = Game { board, moves: ms };
                Some(col)
            },
        }
    }

    /// Checks if a piece can be played in a given 0-indexed column,
    /// returning the number of pieces in the column.
    ///
    /// # Errors
    /// Returns a [`MoveError`] if the move cannot be played.
    pub fn can_play(&self, col: u8) -> (r: Result<u8, MoveError>)
        ensures
            r == spec_can_play(self.spec_board(), col),
    {
        proof {
            use_type_invariant(self);
            lemma_replay_wf(self.moves@);
        }
        if self.is_over() {
            Err(MoveError::GameOver)
        } else if col >= 7 {
            Err(MoveError::InvalidColumn)
        } else if !self.board.is_open(col) {
            Err(MoveError::ColumnFull)
        } else {
            Ok(self.board.pieces_in_col(col))
        }
    }

    /// Returns the [`Player`] whose turn it currently is.
    pub fn turn(&self) -> (r: Player)
        ensures
            r == spec_turn(self.spec_board().num_moves),
    {
        if self.num_moves() % 2 == 0 {
            Player::P1
        } else {
            Player::P2
        }
    }

    /// Returns the number of moves made in the game.
    pub fn num_moves(&self) -> (r: u8)
        ensures
            r == self.spec_board().num_moves,
            r == self.spec_moves().len(),
            r <= 42,
    {
        proof {
            use_type_invariant(self);
            lemma_replay_wf(self.moves@);
            lemma_pop_columns(self.board.occupied_bb);
        }
        self.board.num_moves()
    }

    /// Returns the moves played in the game as 0-indexed columns.
    pub fn moves(&self) -> (r: &Vec<u8>)
        ensures
            r@ == self.spec_moves(),
    {
        &self.moves
    }

    /// Returns a [`Status`] representing the current state of the game.
    pub fn status(&self) -> (r: Status)
        ensures
            r == spec_status(self.spec_board()),
    {
        proof {
            use_type_invariant(self);
            lemma_replay_wf(self.moves@);
        }
        if self.board.has_opponent_won() {
            Status::Win(self.turn().other())
        } else if self.board.is_full() {
            Status::Draw
        } else {
            Status::Ongoing
        }
    }

    /// Checks if the game is over and no more moves can be played.
    pub fn is_over(&self) -> (r: bool)
        ensures
            r == (spec_status(self.spec_board()) != Status::Ongoing),
    {
        proof {
            use_type_invariant(self);
            lemma_replay_wf(self.moves@);
        }
        self.board.is_terminal()
    }

    /// Checks if the game is over: drawn, or won by either side.
    pub fn is_game_over(&self) -> (r: bool)
        ensures
            r == (self.spec_board().num_moves >= 42 || spec_winner(self.spec_board()) is Some),
    {
        self.num_moves() >= 42 || self.winner().is_some()
    }

    /// Returns the winner of the game or [`None`] if the game is a draw or
    /// still ongoing.
    pub fn winner(&self) -> (r: Option<Player>)
        ensures
            r == spec_winner(self.spec_board()),
    {
        proof {
            use_type_invariant(self);
        }
        if self.board.check_win(self.board.player_bb()).is_some() {
            Some(self.turn())
        } else if self.board.check_win(self.board.opponent_bb()).is_some() {
            Some(self.turn().other())
        } else {
            None
        }
    }
}

/// The digit character naming a 0-indexed column, 1-indexed.
pub open spec fn spec_col_char(c: u8) -> char {
    if c == 0 {
        '1'
    } else if c == 1 {
        '2'
    } else if c == 2 {
        '3'
    } else if c == 3 {
        '4'
    } else if c == 4 {
        '5'
    } else if c == 5 {
        '6'
    } else {
        '7'
    }
}

/// The first `i` moves rendered as 1-indexed digit characters.
pub open spec fn spec_moves_chars(cs: Seq<u8>, i: int) -> Seq<char>
    decreases i,
{
    if i <= 0 {
        Seq::empty()
    } else {
        spec_moves_chars(cs, i - 1) + seq![spec_col_char(cs[i - 1])]
    }
}

/// The piece at cell `(x, y)`: the side to move, the opponent, or nobody.
pub open spec fn spec_at(b: Board, x: u8, y: u8) -> Option<Player> {
    if (b.player_bb >> ((7 * x + y) as u64)) & 1 == 1 {
        Some(spec_turn(b.num_moves))
    } else if (b.spec_opponent() >> ((7 * x + y) as u64)) & 1 == 1 {
        Some(spec_turn(b.num_moves).spec_other())
    } else {
        None
    }
}

/// One cell of a reported winning line, offset from its lowest cell.
pub open spec fn spec_coord(idx: int, dx: int, dy: int) -> (u8, u8) {
    (((idx / 7) + dx) as u8, ((idx % 7) + dy) as u8)
}

impl Game {
    /// Returns a string of all the moves played in the game as 1-indexed
    /// columns.
    pub fn moves_str(&self) -> (r: String)
        ensures
            r@ == spec_moves_chars(self.spec_moves(), self.spec_moves().len() as int),
    {
        let mut text: String = String::new();
        let n: usize = self.moves.len();
        let mut i: usize = 0;
        while i < n
            invariant
                n == self.moves@.len(),
                i <= n,
                text@ == spec_moves_chars(self.moves@, i as int),
            decreases n - i,
        {
            proof {
                reveal_strlit("1");
                reveal_strlit("2");
                reveal_strlit("3");
                reveal_strlit("4");
                reveal_strlit("5");
                reveal_strlit("6");
                reveal_strlit("7");
            }
            match self.moves[i] {
                0 => text.append("1"),
                1 => text.append("2"),
                2 => text.append("3"),
                3 => text.append("4"),
                4 => text.append("5"),
                5 => text.append("6"),
                _ => text.append("7"),
            }
            i = i + 1;
        }
        text
    }

    /// Returns the [`Player`] who owns the piece at `(x, y)`, or [`None`]
    /// if the tile is empty. The coordinate must lie on the board.
    pub fn at(&self, x: u8, y: u8) -> (r: Option<Player>)
        requires
            x < 7,
            y < 6,
        ensures
            r == spec_at(self.spec_board(), x, y),
    {
        let offset: u8 = x * 7 + y;
        proof {
            crate::bitboard::lemma_bit_test(self.board.player_bb, offset as u64);
            crate::bitboard::lemma_bit_test(self.board.player_bb ^ self.board.occupied_bb, offset as u64);
        }
        let turn: Player = self.turn();
        let mask: u64 = 1u64 << (offset as u64);
        if self.board.player_bb() & mask != 0 {
            Some(turn)
        } else if self.board.opponent_bb() & mask != 0 {
            Some(turn.other())
        } else {
            None
        }
    }

    /// One row of the board, bottom-up index `y`, as the pieces at each cell.
    fn row(&self, y: u8) -> (r: [Option<Player>; 7])
        requires
            y < 6,
        ensures
            forall|x: int| 0 <= x < 7 ==> r[x] == spec_at(self.spec_board(), x as u8, y),
    {
        [
            self.at(0, y),
            self.at(1, y),
            self.at(2, y),
            self.at(3, y),
            self.at(4, y),
            self.at(5, y),
            self.at(6, y),
        ]
    }

    /// Returns the current state of the game as a 2D array in row-major
    /// order: element `[y][x]` is the piece at `(x, y)`, or [`None`] for an
    /// empty tile.
    pub fn matrix(&self) -> (r: [[Option<Player>; 7]; 6])
        ensures
            forall|y: int, x: int|
                0 <= y < 6 && 0 <= x < 7 ==> r[y][x] == spec_at(
                    self.spec_board(),
                    x as u8,
                    y as u8,
                ),
    {
        [self.row(0), self.row(1), self.row(2), self.row(3), self.row(4), self.row(5)]
    }

    /// Returns an array containing the `(x, y)` coordinates of four pieces
    /// of the player who just moved that form a winning line horizontally,
    /// vertically, or diagonally, sorted from the line's lowest cell. If
    /// there is no winner, [`None`] is returned; if there are multiple
    /// winning lines, one of them is reported.
    pub fn win_coords(&self) -> (r: Option<[(u8, u8); 4]>)
        ensures
            r is Some <==> spec_has_line(self.spec_board().spec_opponent()),
            ({
                let b = self.spec_board();
                match Board::spec_check_win(b.spec_opponent()) {
                    None => r is None,
                    Some((line, dir)) => {
                        let idx = vstd::std_specs::bits::u64_trailing_zeros(line) as int;
                        match dir {
                            WinDirection::AscendingDiagonal => r == Some(
                                [
                                    spec_coord(idx, 0, 0),
                                    spec_coord(idx, 1, 1),
                                    spec_coord(idx, 2, 2),
                                    spec_coord(idx, 3, 3),
                                ],
                            ),
                            WinDirection::DescendingDiagonal => r == Some(
                                [
                                    spec_coord(idx, 0, 0),
                                    spec_coord(idx, 1, -1),
                                    spec_coord(idx, 2, -2),
                                    spec_coord(idx, 3, -3),
                                ],
                            ),
                            WinDirection::Horizontal => r == Some(
                                [
                                    spec_coord(idx, 0, 0),
                                    spec_coord(idx, 1, 0),
                                    spec_coord(idx, 2, 0),
                                    spec_coord(idx, 3, 0),
                                ],
                            ),
                            WinDirection::Vertical => r == Some(
                                [
                                    spec_coord(idx, 0, 0),
                                    spec_coord(idx, 0, 1),
                                    spec_coord(idx, 0, 2),
                                    spec_coord(idx, 0, 3),
                                ],
                            ),
                        }
                    },
                }
            }),
    {
        proof {
            use_type_invariant(self);
            lemma_replay_wf(self.moves@);
            crate::board::lemma_opponent_in_full(self.board);
        }
        match self.board.opponent_winning_bb() {
            None => None,
            Some((bitboard, direction)) => {
                proof {
                    vstd::std_specs::bits::axiom_u64_trailing_zeros(bitboard);
                    crate::board::lemma_bv_line_bounds(
                        self.board.spec_opponent(),
                        vstd::std_specs::bits::u64_trailing_zeros(bitboard) as u64,
                    );
                }
                let index: u8 = bitboard.trailing_zeros() as u8;
                let start_col: u8 = index / 7;
                let start_row: u8 = index % 7;
                match direction {
                    WinDirection::AscendingDiagonal => Some(
                        [
                            (start_col, start_row),
                            (start_col + 1, start_row + 1),
                            (start_col + 2, start_row + 2),
                            (start_col + 3, start_row + 3),
                        ],
                    ),
                    WinDirection::DescendingDiagonal => Some(
                        [
                            (start_col, start_row),
                            (start_col + 1, start_row - 1),
                            (start_col + 2, start_row - 2),
                            (start_col + 3, start_row - 3),
                        ],
                    ),
                    WinDirection::Horizontal => Some(
                        [
                            (start_col, start_row),
                            (start_col + 1, start_row),
                            (start_col + 2, start_row),
                            (start_col + 3, start_row),
                        ],
                    ),
                    WinDirection::Vertical => Some(
                        [
                            (start_col, start_row),
                            (start_col, start_row + 1),
                            (start_col, start_row + 2),
                            (start_col, start_row + 3),
                        ],
                    ),
                }
            },
        }
    }

    /// Returns the number of unique game positions at a specific depth,
    /// deduplicated by transposition key — well-defined because the key is
    /// collision-free over reachable positions
    /// ([`crate::board::lemma_key_injective`]).
    ///
    /// The contract fixes only the base case; the count for deeper levels
    /// is the number of distinct positions exactly `depth` plies in that no
    /// finished position precedes, but relating the shared seen-set walk to
    /// that cardinality is a graph-search argument the contract does not
    /// yet carry. The anchor counts are exercised by the test suite.
    pub fn perft(depth: u8) -> (r: u64)
        requires
            depth <= 42,
        ensures
            depth == 0 ==> r == 1,
    {
        proof {
            lemma_empty_wf();
        }
        let board: Board = Board::new();
        let mut seen: HashSet<u64> = HashSet::new();
        Self::count_nodes(board, depth, &mut seen)
    }

    /// Helper function for perft: counts the positions `depth` plies below
    /// `board` that have not been seen yet.
    fn count_nodes(board: Board, depth: u8, seen: &mut HashSet<u64>) -> (r: u64)
        requires
            board.wf(),
        ensures
            depth == 0 ==> r == 1,
        decreases depth,
    {
        seen.insert(board.key());

        if depth == 0 {
            return 1;
        }

        if board.is_terminal() {
            return 0;
        }

        let mut nodes: u64 = 0;
        let mut i: u8 = 0;
        while i < 7
            invariant
                board.wf(),
                depth >= 1,
            decreases 7 - i,
        {
            if board.is_open(i) {
                let mut new_board: Board = board;
                new_board.play_unchecked(i);
                if !seen.contains(&new_board.key()) {
                    let child: u64 = Self::count_nodes(new_board, depth - 1, seen);
                    nodes = if nodes <= u64::MAX - child {
                        nodes + child
                    } else {
                        u64::MAX
                    };
                }
            }
            i = i + 1;
        }

        nodes
    }
}

/// The landing cells of each move of a history, in play order.
pub open spec fn spec_move_bits(cs: Seq<u8>) -> Seq<u64>
    decreases cs.len(),
{
    if cs.len() == 0 {
        Seq::empty()
    } else {
        spec_move_bits(cs.drop_last()).push(
            spec_replay(cs.drop_last()).spec_move_bit(cs.last() as int),
        )
    }
}

/// The board reached by dropping the given cells one by one.
pub open spec fn spec_replay_bb(ms: Seq<u64>) -> Board
    decreases ms.len(),
{
    if ms.len() == 0 {
        Board { player_bb: 0, occupied_bb: 0, num_moves: 0 }
    } else {
        spec_replay_bb(ms.drop_last()).spec_play_bb(ms.last())
    }
}

/// Replaying a history column by column reaches the same position as
/// dropping the corresponding landing cells bitboard by bitboard.
pub proof fn lemma_replay_by_bitboards(cs: Seq<u8>)
    ensures
        spec_replay(cs) == spec_replay_bb(spec_move_bits(cs)),
    decreases cs.len(),
{
    if cs.len() > 0 {
        lemma_replay_by_bitboards(cs.drop_last());
        assert(spec_move_bits(cs).drop_last() =~= spec_move_bits(cs.drop_last()));
    }
}

/// Every reachable position satisfies the board invariants: as many pieces
/// as moves made, and the mover's pieces all placed on the board.
pub proof fn lemma_reachable_invariants(cs: Seq<u8>)
    requires
        spec_replay_ok(cs),
    ensures
        spec_replay(cs).wf(),
        crate::bits::pop(spec_replay(cs).occupied_bb) == spec_replay(cs).num_moves,
        spec_replay(cs).player_bb & spec_replay(cs).occupied_bb == spec_replay(cs).player_bb,
        crate::bits::pop(spec_replay(cs).player_bb) == spec_replay(cs).num_moves as int / 2,
{
    lemma_replay_wf(cs);
}

/// The character rendering one tile: the owner's mark, or an underscore.
pub open spec fn spec_tile_char(b: Board, x: int, y: int) -> char {
    if (b.player_bb >> ((7 * x + y) as u64)) & 1 == 1 {
        if spec_turn(b.num_moves) == Player::P1 {
            'X'
        } else {
            'O'
        }
    } else if (b.spec_opponent() >> ((7 * x + y) as u64)) & 1 == 1 {
        if spec_turn(b.num_moves) == Player::P1 {
            'O'
        } else {
            'X'
        }
    } else {
        '_'
    }
}

/// The rendering of row `y`, first `x` columns, separators included.
pub open spec fn spec_render_row(b: Board, y: int, x: int) -> Seq<char>
    decreases x,
{
    if x <= 0 {
        Seq::empty()
    } else {
        spec_render_row(b, y, x - 1) + seq![spec_tile_char(b, x - 1, y)] + (if x - 1 != 6 {
            seq![' ']
        } else {
            Seq::empty()
        })
    }
}

/// The rendering of rows 5 down to `y`, top row first, each but the bottom
/// one followed by a newline.
pub open spec fn spec_render_rows(b: Board, y: int) -> Seq<char>
    decreases 6 - y,
{
    if y >= 6 || y < 0 {
        Seq::empty()
    } else {
        spec_render_rows(b, y + 1) + spec_render_row(b, y, 7) + (if y != 0 {
            seq!['\n']
        } else {
            Seq::empty()
        })
    }
}

impl Game {
    /// Renders the board as text, top row first: `X` for the first player,
    /// `O` for the second, `_` for an empty tile.
    pub fn board_string(&self) -> (r: String)
        ensures
            r@ == spec_render_rows(self.spec_board(), 0),
    {
        let mut text: String = String::new();
        let mut row: u8 = 6;
        while row > 0
            invariant
                row <= 6,
                text@ == spec_render_rows(self.spec_board(), row as int),
            decreases row,
        {
            row = row - 1;
            let mut col: u8 = 0;
            while col < 7
                invariant
                    col <= 7,
                    row < 6,
                    text@ == spec_render_rows(self.spec_board(), row as int + 1)
                        + spec_render_row(self.spec_board(), row as int, col as int),
                decreases 7 - col,
            {
                proof {
                    reveal_strlit("X");
                    reveal_strlit("O");
                    reveal_strlit("_");
                    reveal_strlit(" ");
                }
                match self.at(col, row) {
                    Some(Player::P1) => text.append("X"),
                    Some(Player::P2) => text.append("O"),
                    None => text.append("_"),
                }
                if col != 6 {
                    text.append(" ");
                }
                col = col + 1;
            }
            if row != 0 {
                text.append("\n");
                proof {
                    reveal_strlit("\n");
                }
            }
        }
        text
    }
}

impl PartialEq for Game {
    /// Two games are equal when they reached the same position by the same
    /// history.
    fn eq(&self, other: &Game) -> (r: bool) {
        let same_moves: bool = self.moves == other.moves;
        proof {
            if same_moves {
                assert(self.moves@ =~= other.moves@);
            }
        }
        self.board.player_bb() == other.board.player_bb() && self.board.occupied_bb()
            == other.board.occupied_bb() && self.board.num_moves() == other.board.num_moves()
            && same_moves
    }
}

impl vstd::std_specs::cmp::PartialEqSpecImpl for Game {
    open spec fn obeys_eq_spec() -> bool {
        true
    }

    open spec fn eq_spec(&self, other: &Game) -> bool {
        self.spec_board() == other.spec_board() && self.spec_moves() == other.spec_moves()
    }
}

} // verus!
