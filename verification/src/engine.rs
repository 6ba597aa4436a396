//! Solve and analyze Connect Four games.
//!
//! # Score
//! Every game position has a score that determines the outcome of a game,
//! assuming that both players play perfectly and optimally.
//! * A positive score signifies that the current player can win.
//!   * A position has the score of 1 if the player can win with their last
//!     piece, 2 if the player can win with their second to last piece, etc.
//! * A score of 0 signifies that the game will end in a draw.
//! * A negative score signifies that the current player will lose.
//!   * A position has the score of -1 if the player loses with their last
//!     piece, -2 if the player loses with their second to last piece, etc.

use vstd::prelude::*;

verus! {

use crate::Player;
use crate::Outcome;
use crate::board::{Board, spec_non_losing, spec_winning};
use crate::bitboard::column_mask;
use crate::cache::{Cache, SCORE_CAP};

/// The maximum possible score of a game position.
pub const MAX_SCORE: i8 = 18;

/// The minimum possible score of a game position.
pub const MIN_SCORE: i8 = -MAX_SCORE;

/// Represents the outcome of a game and the number of moves taken by both
/// players until the outcome is reached.
pub type Prediction = (Outcome, u8);

/// The reversed column exploration order: edge columns first, so that the
/// move sorter hands back central columns first among equal threat counts.
pub open spec fn spec_rev_order(i: int) -> u8 {
    if i == 0 {
        0
    } else if i == 1 {
        6
    } else if i == 2 {
        1
    } else if i == 3 {
        5
    } else if i == 4 {
        2
    } else if i == 5 {
        4
    } else {
        3
    }
}

/// The column to examine at step `i` when filling the move sorter.
fn rev_order(i: u8) -> (r: u8)
    requires
        i < 7,
    ensures
        r == spec_rev_order(i as int),
        r < 7,
{
    match i {
        0 => 0,
        1 => 6,
        2 => 1,
        3 => 5,
        4 => 2,
        5 => 4,
        _ => 3,
    }
}

/// The sorter's entries are ordered by ascending threat count.
pub open spec fn spec_sorted_by_count(s: Seq<(u64, u32)>) -> bool {
    forall|i: int, j: int| 0 <= i < j < s.len() ==> (#[trigger] s[i]).1 <= (#[trigger] s[j]).1
}

/// The transposition key of a position.
pub open spec fn spec_board_key(b: Board) -> u64 {
    (b.player_bb + b.occupied_bb) as u64
}

/// Every entry of a transposition map bounds the true value of the keyed
/// position from above, for every position the search can visit. The key
/// identifies the position, by the proved injectivity of the key.
pub open spec fn spec_tt_sound(m: Map<u64, i8>) -> bool {
    forall|b: Board|
        (b.wf() && crate::board::spec_search_ok(b) && #[trigger] m.dom().contains(
            spec_board_key(b),
        )) ==> crate::value::spec_value(b) <= m[spec_board_key(b)]
}

/// The sorter holds an entry for the given cell.
pub open spec fn spec_sorter_has(s: Seq<(u64, u32)>, m: u64) -> bool {
    exists|k: int| 0 <= k < s.len() && (#[trigger] s[k]).0 == m
}

/// The cell is an open column's share of the non-losing move set.
pub open spec fn spec_entry_ok(b: Board, m: u64) -> bool {
    exists|c: int|
        0 <= c < 7 && b.spec_is_open(c) && m == spec_non_losing(b)
            & #[trigger] crate::bitboard::spec_column_mask(c) && m != 0
}

/// Every held cell is an open column's share of the non-losing move set.
pub open spec fn spec_entries_ok(b: Board, s: Seq<(u64, u32)>) -> bool {
    forall|k: int| 0 <= k < s.len() ==> spec_entry_ok(b, (#[trigger] s[k]).0)
}

/// Inserting a well-formed entry keeps the entries well-formed.
proof fn lemma_entries_insert(b: Board, s: Seq<(u64, u32)>, idx: int, e: (u64, u32))
    requires
        0 <= idx <= s.len(),
        spec_entries_ok(b, s),
        spec_entry_ok(b, e.0),
    ensures
        spec_entries_ok(b, s.insert(idx, e)),
{
    let t = s.insert(idx, e);
    assert forall|k: int| 0 <= k < t.len() implies spec_entry_ok(b, (#[trigger] t[k]).0) by {
        if k < idx {
            assert(t[k] == s[k]);
        } else if k == idx {
            assert(t[k] == e);
        } else {
            assert(t[k] == s[k - 1]);
        }
    }
}

/// Dropping the last entry keeps the entries well-formed.
proof fn lemma_entries_drop(b: Board, s: Seq<(u64, u32)>)
    requires
        s.len() > 0,
        spec_entries_ok(b, s),
    ensures
        spec_entries_ok(b, s.drop_last()),
{
    let t = s.drop_last();
    assert forall|k: int| 0 <= k < t.len() implies spec_entry_ok(b, (#[trigger] t[k]).0) by {
        assert(t[k] == s[k]);
    }
}

/// Inserting keeps every held cell and adds the new one.
proof fn lemma_sorter_has_insert(s: Seq<(u64, u32)>, idx: int, e: (u64, u32))
    requires
        0 <= idx <= s.len(),
    ensures
        forall|m: u64| #[trigger] spec_sorter_has(s, m) ==> spec_sorter_has(s.insert(idx, e), m),
        spec_sorter_has(s.insert(idx, e), e.0),
{
    assert forall|m: u64| #[trigger] spec_sorter_has(s, m) implies spec_sorter_has(
        s.insert(idx, e),
        m,
    ) by {
        let k = choose|k: int| 0 <= k < s.len() && (#[trigger] s[k]).0 == m;
        if k < idx {
            assert(s.insert(idx, e)[k] == s[k]);
        } else {
            assert(s.insert(idx, e)[k + 1] == s[k]);
        }
    }
    assert(s.insert(idx, e)[idx] == e);
}

/// The executable transposition key is the spec-level key.
proof fn lemma_key_is_spec(b: Board)
    requires
        b.wf(),
    ensures
        b.player_bb + b.occupied_bb == spec_board_key(b) as int,
{
    crate::board::lemma_occ_bound(b.occupied_bb);
    crate::board::lemma_bv_andnot(b.player_bb, b.occupied_bb, 0);
}

/// When every open reply is either bounded by `alpha` or pruned, the
/// position's value is bounded by `alpha`: pruned replies lose on the
/// spot, which scores strictly below the surviving lower bound.
proof fn lemma_fail_low_value(b: Board, alpha: int, minv: int)
    requires
        b.wf(),
        crate::board::spec_search_ok(b),
        b.num_moves < 42,
        spec_non_losing(b) != 0,
        minv == crate::value::spec_min_bound(b.num_moves as int),
        minv <= crate::value::spec_value(b),
        forall|c: int|
            0 <= c < 7 && #[trigger] b.spec_is_open(c) ==> (-crate::value::spec_value(
                b.spec_play_col(c),
            ) <= alpha || spec_non_losing(b) & crate::bitboard::spec_column_mask(c) == 0),
    ensures
        crate::value::spec_value(b) <= alpha,
{
    let nm = b.num_moves as int;
    let pb: int = -((42 - nm) / 2);
    if nm == 41 {
        assert forall|c: int| 0 <= c < 7 && #[trigger] b.spec_is_open(c) implies
            -crate::value::spec_value(b.spec_play_col(c)) <= alpha by {
            if spec_non_losing(b) & crate::bitboard::spec_column_mask(c) == 0 {
                vstd::std_specs::bits::axiom_u64_trailing_zeros(spec_non_losing(b));
                let k = vstd::std_specs::bits::u64_trailing_zeros(spec_non_losing(b)) as u64;
                crate::board::lemma_nlm_in_board(b, k);
                let ck = (k / 7) as int;
                crate::board::lemma_nlm_move(b, ck);
                if c != ck {
                    crate::value::lemma_two_opens_cap(b, c, ck);
                }
            }
        }
        crate::value::lemma_best_le(b, 7, alpha);
    } else {
        let bnd: int = if alpha >= pb {
            alpha
        } else {
            pb
        };
        assert forall|c: int| 0 <= c < 7 && #[trigger] b.spec_is_open(c) implies
            -crate::value::spec_value(b.spec_play_col(c)) <= bnd by {
            if spec_non_losing(b) & crate::bitboard::spec_column_mask(c) == 0 {
                crate::board::lemma_nlm_move_zero_share(b, c);
                crate::board::lemma_pruned_child_loses(b, c);
                crate::board::lemma_bv_andnot(crate::bitboard::spec_column_mask(c), 0, 0);
                crate::value::lemma_no_win_no_line(b, c);
                crate::board::lemma_play_col_wf(b, c);
                crate::value::lemma_value_can_win(b.spec_play_col(c));
            }
        }
        crate::value::lemma_best_le(b, 7, bnd);
    }
}

/// Inserting a sound bound keeps the transposition table sound: the key
/// names exactly one reachable position.
proof fn lemma_tt_insert_sound(m: Map<u64, i8>, b: Board, v: i8)
    requires
        spec_tt_sound(m),
        b.wf(),
        crate::board::spec_search_ok(b) ==> crate::value::spec_value(b) <= v,
    ensures
        spec_tt_sound(m.insert(spec_board_key(b), v)),
{
    let newmap = m.insert(spec_board_key(b), v);
    assert forall|b2: Board| (b2.wf() && crate::board::spec_search_ok(b2)
        && #[trigger] newmap.dom().contains(spec_board_key(b2))) implies
        crate::value::spec_value(b2) <= newmap[spec_board_key(b2)] by {
        lemma_key_is_spec(b);
        lemma_key_is_spec(b2);
        if spec_board_key(b2) == spec_board_key(b) {
            crate::board::lemma_key_injective(b2, b);
        } else {
            assert(m.dom().contains(spec_board_key(b2)));
        }
    }
}

/// An array of moves by number of winning moves, sorted in ascending order.
///
/// An insertion sort algorithm is used because it performs well on small
/// arrays and is online (able to sort elements as it receives them).
pub struct MoveSorter {
    entries: Vec<(u64, u32)>,
}

impl MoveSorter {
    /// The entries held, in ascending order of threat count.
    pub closed spec fn view(self) -> Seq<(u64, u32)> {
        self.entries@
    }

    /// Creates a new, empty move sorter.
    pub fn new() -> (r: MoveSorter)
        ensures
            r@ == Seq::<(u64, u32)>::empty(),
    {
        MoveSorter { entries: Vec::new() }
    }

    /// Inserts a move, represented as a bitboard, and its number of winning
    /// moves into the move sorter, ensuring that the array remains sorted:
    /// the new pair lands exactly after the stored entries with counts up to
    /// its own and before those with greater counts, so the stored entries
    /// are all the inserted pairs, equal counts kept in insertion order.
    pub fn insert(&mut self, move_board: u64, num_winning_moves: u32)
        requires
            spec_sorted_by_count(old(self)@),
        ensures
            spec_sorted_by_count(final(self)@),
            final(self)@.len() == old(self)@.len() + 1,
            exists|idx: int|
                {
                    &&& 0 <= idx <= old(self)@.len()
                    &&& final(self)@ == old(self)@.insert(idx, (move_board, num_winning_moves))
                    &&& (forall|j: int|
                        0 <= j < idx ==> (#[trigger] old(self)@[j]).1 <= num_winning_moves)
                    &&& (forall|j: int|
                        idx <= j < old(self)@.len() ==> (#[trigger] old(self)@[j]).1
                            > num_winning_moves)
                },
            forall|k: int|
                0 <= k < final(self)@.len() ==> old(self)@.contains(#[trigger] final(self)@[k])
                    || final(self)@[k] == (move_board, num_winning_moves),
    {
        let mut index: usize = self.entries.len();
        while index != 0 && self.entries[index - 1].1 > num_winning_moves
            invariant
                index <= self.entries@.len(),
                spec_sorted_by_count(self.entries@),
                forall|j: int|
                    index <= j < self.entries@.len() ==> (#[trigger] self.entries@[j]).1
                        > num_winning_moves,
            decreases index,
        {
            index = index - 1;
        }
        proof {
            assert forall|j: int| 0 <= j < index implies (#[trigger] self.entries@[j]).1
                <= num_winning_moves by {
                assert(self.entries@[index - 1].1 <= num_winning_moves);
            }
        }
        self.entries.insert(index, (move_board, num_winning_moves));
        proof {
            let s = self.entries@;
            let o = old(self)@;
            assert(0 <= index as int <= o.len() && s == o.insert(
                index as int,
                (move_board, num_winning_moves),
            ) && (forall|j: int| 0 <= j < index as int ==> (#[trigger] o[j]).1 <= num_winning_moves)
                && (forall|j: int|
                index as int <= j < o.len() ==> (#[trigger] o[j]).1 > num_winning_moves));
            assert forall|k: int| 0 <= k < s.len() implies o.contains(#[trigger] s[k]) || s[k] == (
                move_board,
                num_winning_moves,
            ) by {
                if k < index {
                    assert(s[k] == o[k]);
                } else if k > index {
                    assert(s[k] == o[k - 1]);
                }
            }
            assert forall|i: int, j: int| 0 <= i < j < s.len() implies (#[trigger] s[i]).1 <= (
            #[trigger] s[j]).1 by {
                if j < index {
                } else if i > index {
                } else if i == index && j > index {
                    assert(s[j] == o[j - 1]);
                } else if j == index && i < index {
                    assert(s[i] == o[i]);
                } else if i < index && j > index {
                    assert(s[i] == o[i]);
                    assert(s[j] == o[j - 1]);
                }
            }
        }
    }

    /// Hands back the entry with the highest threat count and removes it.
    pub fn next(&mut self) -> (r: Option<u64>)
        ensures
            old(self)@.len() == 0 ==> r is None && final(self)@ == old(self)@,
            old(self)@.len() > 0 ==> r == Some(old(self)@.last().0) && final(self)@ == old(
                self,
            )@.drop_last(),
    {
        match self.entries.pop() {
            Some(entry) => Some(entry.0),
            None => None,
        }
    }
}

/// A solver and analyzer for the game of Connect Four.
pub struct Engine {
    /// The number of nodes visited.
    node_count: u64,
    /// An opening book used to cache the scores of opening positions.
    opening_book: Cache,
    /// A transposition table used to cache the scores of previously-computed
    /// positions.
    tt_cache: Cache,
}

impl Engine {
    /// The number of nodes the most recent evaluation visited.
    pub closed spec fn spec_node_count(self) -> u64 {
        self.node_count
    }

    /// The contents of the transposition table.
    pub closed spec fn spec_tt(self) -> Map<u64, i8> {
        self.tt_cache@
    }

    /// The contents of the opening book.
    pub closed spec fn spec_book(self) -> Map<u64, i8> {
        self.opening_book@
    }

    /// The deepest ply at which the opening book is consulted.
    pub closed spec fn spec_book_depth(self) -> u8 {
        self.opening_book.spec_max_depth()
    }

    /// The transposition table only ever holds sound upper bounds.
    #[verifier::type_invariant]
    spec fn inv(self) -> bool {
        spec_tt_sound(self.tt_cache@)
    }

    /// Creates a new engine with empty caches.
    pub fn new() -> (r: Engine)
        ensures
            r.spec_node_count() == 0,
            r.spec_tt() == Map::<u64, i8>::empty(),
            r.spec_book() == Map::<u64, i8>::empty(),
            r.spec_book_depth() == 0,
    {
        Engine { node_count: 0, opening_book: Cache::new(0), tt_cache: Cache::new(42) }
    }

    /// Creates a new engine that consults the given opening book, with an
    /// empty transposition table.
    pub fn with_opening_book(opening_book: Cache) -> (r: Engine)
        ensures
            r.spec_node_count() == 0,
            r.spec_tt() == Map::<u64, i8>::empty(),
            r.spec_book() == opening_book@,
            r.spec_book_depth() == opening_book.spec_max_depth(),
    {
        Engine { node_count: 0, opening_book, tt_cache: Cache::new(42) }
    }

    /// Returns the number of nodes visited in the last evaluation.
    pub fn node_count(&self) -> (r: u64)
        ensures
            r == self.spec_node_count(),
    {
        self.node_count
    }

    /// Returns the number of positions held in the transposition table.
    pub fn tt_len(&self) -> (r: usize)
        ensures
            r == self.spec_tt().len(),
    {
        self.tt_cache.len()
    }

    /// Returns the number of positions held in the opening book.
    pub fn book_len(&self) -> (r: usize)
        ensures
            r == self.spec_book().len(),
    {
        self.opening_book.len()
    }

    /// Clears the transposition table, releasing its memory; the opening
    /// book and the node counter stay as they were.
    pub fn clear_tt(&mut self)
        ensures
            final(self).spec_tt() == Map::<u64, i8>::empty(),
            final(self).spec_book() == old(self).spec_book(),
            final(self).spec_book_depth() == old(self).spec_book_depth(),
            final(self).spec_node_count() == old(self).spec_node_count(),
    {
        let mut table: Cache = Cache::new(42);
        std::mem::swap(&mut table, &mut self.tt_cache);
        table.clear();
        self.tt_cache = table;
    }

    /// Entry function to solve a board: null-window probes driven by
    /// bisection on the score interval, biased toward zero.
    ///
    /// When neither side holds a line and the opening book cannot answer,
    /// the result is exactly the game-theoretic value of the position.
    fn solve(&mut self, board: Board) -> (r: i8)
        requires
            board.wf(),
        ensures
            -SCORE_CAP <= r <= SCORE_CAP,
            (spec_winning(board.player_bb, board.occupied_bb) & board.spec_possible() != 0) ==> r
                == board.spec_pos_score(true),
            (!crate::board::spec_has_line(board.spec_opponent()) && spec_winning(
                board.player_bb,
                board.occupied_bb,
            ) & board.spec_possible() != 0) ==> r == crate::value::spec_value(board),
            (board.num_moves >= 42 && (old(self).spec_book_depth() < 42 || old(self).spec_book()
                == Map::<u64, i8>::empty())) ==> r == 0,
            (!crate::board::spec_has_line(board.player_bb) && !crate::board::spec_has_line(
                board.spec_opponent(),
            ) && (old(self).spec_book() == Map::<u64, i8>::empty() || old(self).spec_book_depth()
                < board.num_moves)) ==> r == crate::value::spec_value(board),
            final(self).spec_book() == old(self).spec_book(),
            final(self).spec_book_depth() == old(self).spec_book_depth(),
    {
        let ghost exact = !crate::board::spec_has_line(board.player_bb)
            && !crate::board::spec_has_line(board.spec_opponent()) && (self.spec_book()
            == Map::<u64, i8>::empty() || self.spec_book_depth() < board.num_moves);
        if board.can_win_next() {
            proof {
                if !crate::board::spec_has_line(board.spec_opponent()) {
                    crate::value::lemma_value_can_win(board);
                }
            }
            return board.position_score(true);
        }
        if board.num_moves() <= self.opening_book.max_depth() {
            let key3: u128 = board.key3();
            if key3 <= 0xffffffffffffffff {
                if let Some(score) = self.opening_book.get(&(key3 as u64)) {
                    return score;
                }
            }
        }
        proof {
            if exact {
                crate::value::lemma_value_lower_no_line(board);
                crate::value::lemma_value_upper_cant_win(board);
            }
        }
        let mut max: i8 = board.position_score(false);
        let mut min: i8 = -max;
        while min < max
            invariant
                board.wf(),
                -21 <= min <= SCORE_CAP,
                -SCORE_CAP <= max <= 21,
                board.num_moves >= 42 ==> min == 0,
                exact ==> crate::board::spec_search_ok(board),
                exact ==> min <= crate::value::spec_value(board) <= max,
                self.spec_book() == old(self).spec_book(),
                self.spec_book_depth() == old(self).spec_book_depth(),
            decreases (if min < max {
                max - min
            } else {
                0int
            }),
        {
            let mut midpoint: i8 = min + (max - min) / 2;
            if midpoint <= 0 && min / 2 < midpoint {
                midpoint = min / 2;
            } else if midpoint >= 0 && max / 2 > midpoint {
                midpoint = max / 2;
            }
            let score: i8 = self.negamax(board, midpoint, midpoint + 1);
            if score <= midpoint {
                max = score;
            } else {
                min = score;
            }
        }
        min
    }

    /// Recursively solves a game using the negamax search algorithm with
    /// null-window alpha-beta probes, returning its score. A full board is
    /// a draw; a position whose every move hands the opponent an immediate
    /// win is lost as slowly as the loser can make it. For positions the
    /// search visits — no line on the board, the mover unable to win at
    /// once — the result is a sound null-window probe of the exact game
    /// value: a fail-low bounds it from above, a fail-high from below.
    #[verifier::rlimit(100)]
    fn negamax(&mut self, board: Board, alpha: i8, beta: i8) -> (r: i8)
        requires
            board.wf(),
            -SCORE_CAP <= alpha < beta <= SCORE_CAP,
            beta == alpha + 1,
        ensures
            -SCORE_CAP <= r <= SCORE_CAP,
            board.num_moves >= 42 ==> r == 0,
            (board.num_moves < 42 && spec_non_losing(board) == 0) ==> r == -board.spec_pos_score(
                false,
            ),
            crate::board::spec_search_ok(board) ==> {
                &&& (r <= alpha ==> crate::value::spec_value(board) <= r)
                &&& (r >= beta ==> crate::value::spec_value(board) >= r)
            },
            final(self).spec_book() == old(self).spec_book(),
            final(self).spec_book_depth() == old(self).spec_book_depth(),
        decreases 42 - board.num_moves,
    {
        let ghost ok = crate::board::spec_search_ok(board);
        proof {
            use_type_invariant(&*self);
        }
        if self.node_count < u64::MAX {
            self.node_count = self.node_count + 1;
        }

        if board.is_full() {
            return 0;
        }

        let non_losing_moves: u64 = board.non_losing_moves_bb();
        if non_losing_moves == 0 {
            proof {
                if ok {
                    crate::value::lemma_value_all_moves_lose(board);
                }
            }
            return -board.position_score(false);
        }

        proof {
            crate::board::lemma_pop_columns(board.occupied_bb);
            if ok {
                crate::value::lemma_value_survives(board);
            }
        }
        let n: u8 = board.num_moves();
        let min: i8 = if n <= 40 {
            -(((40 - n) as i8) / 2)
        } else {
            0
        };
        proof {
            assert(min as int == crate::value::spec_min_bound(n as int));
        }
        if min >= beta {
            return min;
        }

        proof {
            if ok {
                crate::value::lemma_value_upper_cant_win(board);
            }
        }
        let key: u64 = board.key();
        let max: i8 = match self.tt_cache.get(&key) {
            Some(score) => score,
            None => -min + 1,
        };
        if alpha >= max {
            proof {
                if ok {
                    if self.tt_cache@.contains_key(key) {
                        assert(self.tt_cache@.dom().contains(spec_board_key(board)));
                    }
                }
            }
            return max;
        }

        let mut moves: MoveSorter = MoveSorter::new();
        let mut i: u8 = 0;
        while i < 7
            invariant
                board.wf(),
                board.num_moves < 42,
                non_losing_moves == spec_non_losing(board),
                non_losing_moves != 0,
                spec_sorted_by_count(moves@),
                spec_entries_ok(board, moves@),
                forall|j: int|
                    0 <= j < i ==> (spec_sorter_has(
                        moves@,
                        spec_non_losing(board) & crate::bitboard::spec_column_mask(
                            #[trigger] spec_rev_order(j) as int,
                        ),
                    ) || spec_non_losing(board) & crate::bitboard::spec_column_mask(
                        spec_rev_order(j) as int,
                    ) == 0),
            decreases 7 - i,
        {
            let ghost before = moves@;
            let col: u8 = rev_order(i);
            let move_board: u64 = non_losing_moves & column_mask(col);
            if move_board != 0 {
                proof {
                    crate::board::lemma_nlm_move(board, col as int);
                }
                let cnt: u32 = board.count_winning_moves(move_board);
                proof {
                    assert(spec_entry_ok(board, move_board));
                }
                moves.insert(move_board, cnt);
                proof {
                    let idx = choose|idx: int|
                        0 <= idx <= before.len() && moves@ == before.insert(idx, (move_board, cnt))
                            && (forall|j: int| 0 <= j < idx ==> (#[trigger] before[j]).1 <= cnt)
                            && (forall|j: int|
                            idx <= j < before.len() ==> (#[trigger] before[j]).1 > cnt);
                    lemma_sorter_has_insert(before, idx, (move_board, cnt));
                    lemma_entries_insert(board, before, idx, (move_board, cnt));
                }
            }
            i = i + 1;
        }
        proof {
            assert(spec_rev_order(0) == 0 && spec_rev_order(1) == 6 && spec_rev_order(2) == 1
                && spec_rev_order(3) == 5 && spec_rev_order(4) == 2 && spec_rev_order(5) == 4
                && spec_rev_order(6) == 3);
            assert forall|c: int| 0 <= c < 7 && #[trigger] board.spec_is_open(c) implies (
            spec_sorter_has(moves@, board.spec_move_bit(c)) || (ok
                ==> -crate::value::spec_value(board.spec_play_col(c)) <= alpha as int)
                || spec_non_losing(board) & crate::bitboard::spec_column_mask(c) == 0) by {
                if spec_non_losing(board) & crate::bitboard::spec_column_mask(c) != 0 {
                    crate::board::lemma_nlm_move(board, c);
                }
            }
        }

        loop
            invariant
                board.wf(),
                board.num_moves < 42,
                spec_non_losing(board) != 0,
                non_losing_moves == spec_non_losing(board),
                -SCORE_CAP <= alpha < beta <= SCORE_CAP,
                beta == alpha + 1,
                ok == crate::board::spec_search_ok(board),
                min as int == crate::value::spec_min_bound(board.num_moves as int),
                ok ==> min <= crate::value::spec_value(board),
                self.spec_book() == old(self).spec_book(),
                self.spec_book_depth() == old(self).spec_book_depth(),
                spec_entries_ok(board, moves@),
                forall|c: int|
                    0 <= c < 7 && #[trigger] board.spec_is_open(c) ==> (spec_sorter_has(
                        moves@,
                        board.spec_move_bit(c),
                    ) || (ok ==> -crate::value::spec_value(board.spec_play_col(c)) <= alpha as int)
                        || spec_non_losing(board) & crate::bitboard::spec_column_mask(c) == 0),
            ensures
                board.wf(),
                board.num_moves < 42,
                spec_non_losing(board) != 0,
                ok == crate::board::spec_search_ok(board),
                min as int == crate::value::spec_min_bound(board.num_moves as int),
                ok ==> min <= crate::value::spec_value(board),
                self.spec_book() == old(self).spec_book(),
                self.spec_book_depth() == old(self).spec_book_depth(),
                forall|c: int|
                    0 <= c < 7 && #[trigger] board.spec_is_open(c) ==> ((ok
                        ==> -crate::value::spec_value(board.spec_play_col(c)) <= alpha as int)
                        || spec_non_losing(board) & crate::bitboard::spec_column_mask(c) == 0),
            decreases moves@.len(),
        {
            let ghost before = moves@;
            let next_move: Option<u64> = moves.next();
            match next_move {
                Some(move_board) => {
                    proof {
                        assert(before[before.len() - 1].0 == move_board);
                        assert(spec_entry_ok(board, move_board));
                    }
                    let ghost cm = choose|c: int|
                        0 <= c < 7 && board.spec_is_open(c) && move_board == spec_non_losing(board)
                            & #[trigger] crate::bitboard::spec_column_mask(c) && move_board != 0;
                    proof {
                        crate::board::lemma_nlm_move(board, cm);
                        crate::board::lemma_play_bb_wf(board, move_board);
                        crate::board::lemma_is_move_play_word(board, move_board);
                        if ok {
                            crate::board::lemma_bv_andnot(
                                crate::bitboard::spec_column_mask(cm),
                                0,
                                0,
                            );
                            crate::value::lemma_no_win_no_line(board, cm);
                            crate::board::lemma_nlm_child_safe(board, cm);
                        }
                    }
                    let mut new_board: Board = board;
                    new_board.play_bb(move_board);
                    proof {
                        assert(new_board == board.spec_play_col(cm));
                    }
                    let score: i8 = -self.negamax(new_board, -beta, -alpha);
                    if score >= beta {
                        proof {
                            if ok {
                                crate::value::lemma_best_ge(board, 7, cm);
                            }
                        }
                        return score;
                    }
                    proof {
                        lemma_entries_drop(board, before);
                        assert forall|c: int| 0 <= c < 7 && #[trigger] board.spec_is_open(c)
                            implies (spec_sorter_has(moves@, board.spec_move_bit(c)) || (ok
                            ==> -crate::value::spec_value(board.spec_play_col(c)) <= alpha as int)
                            || spec_non_losing(board) & crate::bitboard::spec_column_mask(c)
                            == 0) by {
                            if spec_sorter_has(before, board.spec_move_bit(c)) {
                                let k = choose|k: int|
                                    0 <= k < before.len() && (#[trigger] before[k]).0
                                        == board.spec_move_bit(c);
                                if k < before.len() - 1 {
                                    assert(moves@[k] == before[k]);
                                    assert((moves@[k]).0 == board.spec_move_bit(c));
                                } else {
                                    crate::board::lemma_move_bit_unique(board, c, cm);
                                }
                            }
                        }
                    }
                },
                None => {
                    break ;
                },
            }
        }
        proof {
            use_type_invariant(&*self);
            if ok {
                lemma_fail_low_value(board, alpha as int, min as int);
            }
            lemma_key_is_spec(board);
            lemma_tt_insert_sound(self.tt_cache@, board, alpha);
        }
        let mut table: Cache = Cache::new(0);        let mut table: Cache = Cache::new(0);
        std::mem::swap(&mut table, &mut self.tt_cache);
        table.insert(key, alpha);
        self.tt_cache = table;
        alpha
    }
}

impl Engine {
    /// Evaluates a game position, returning its score: the exact
    /// game-theoretic value whenever neither side already holds a line and
    /// the opening book cannot answer for the position. The result then
    /// dominates the negated value of every legal reply and is attained by
    /// an optimal one.
    pub fn evaluate(&mut self, game: &crate::game::Game) -> (r: i8)
        ensures
            -SCORE_CAP <= r <= SCORE_CAP,
            ({
                let b = game.spec_board();
                (spec_winning(b.player_bb, b.occupied_bb) & b.spec_possible() != 0) ==> r
                    == b.spec_pos_score(true)
            }),
            ({
                let b = game.spec_board();
                (!crate::board::spec_has_line(b.spec_opponent()) && spec_winning(
                    b.player_bb,
                    b.occupied_bb,
                ) & b.spec_possible() != 0) ==> r == crate::value::spec_value(b)
            }),
            (game.spec_board().num_moves >= 42 && (old(self).spec_book_depth() < 42 || old(
                self,
            ).spec_book() == Map::<u64, i8>::empty())) ==> r == 0,
            ({
                let b = game.spec_board();
                (!crate::board::spec_has_line(b.player_bb) && !crate::board::spec_has_line(
                    b.spec_opponent(),
                ) && (old(self).spec_book() == Map::<u64, i8>::empty() || old(
                    self,
                ).spec_book_depth() < b.num_moves)) ==> r == crate::value::spec_value(b)
            }),
            ({
                let b = game.spec_board();
                (!crate::board::spec_has_line(b.player_bb) && !crate::board::spec_has_line(
                    b.spec_opponent(),
                ) && (old(self).spec_book() == Map::<u64, i8>::empty() || old(
                    self,
                ).spec_book_depth() < b.num_moves) && b.num_moves < 42) ==> ((forall|c: int|
                    0 <= c < 7 && #[trigger] b.spec_is_open(c) ==> r >= -crate::value::spec_value(
                        b.spec_play_col(c),
                    )) && (exists|c: int|
                    0 <= c < 7 && #[trigger] b.spec_is_open(c) && r == -crate::value::spec_value(
                        b.spec_play_col(c),
                    )))
            }),
    {
        proof {
            use_type_invariant(&*self);
        }
        self.node_count = 0;
        let board: Board = game.board();
        proof {
            if !crate::board::spec_has_line(board.player_bb) && !crate::board::spec_has_line(
                board.spec_opponent(),
            ) && board.num_moves < 42 {
                crate::value::lemma_value_optimal(board);
            }
        }
        self.solve(board)
    }

    /// The score of one candidate column: the immediate-win score when the
    /// move wins on the spot, the negated score of the child position
    /// otherwise, and nothing for a full column.
    fn eval_col(&mut self, board: Board, col: u8) -> (r: Option<i8>)
        requires
            board.wf(),
            col < 7,
        ensures
            r is Some <==> board.spec_is_open(col as int),
            (board.spec_is_open(col as int) && spec_winning(board.player_bb, board.occupied_bb)
                & board.spec_possible() & crate::bitboard::spec_column_mask(col as int) != 0) ==> r
                == Some((board.spec_pos_score(true)) as i8),
            ({
                let child = board.spec_play_col(col as int);
                (board.spec_is_open(col as int) && spec_winning(board.player_bb, board.occupied_bb)
                    & board.spec_possible() & crate::bitboard::spec_column_mask(col as int) == 0
                    && !crate::board::spec_has_line(child.spec_opponent()) && spec_winning(
                    child.player_bb,
                    child.occupied_bb,
                ) & child.spec_possible() != 0) ==> r == Some(
                    (-crate::value::spec_value(child)) as i8,
                )
            }),
            ({
                let child = board.spec_play_col(col as int);
                (board.spec_is_open(col as int) && spec_winning(board.player_bb, board.occupied_bb)
                    & board.spec_possible() & crate::bitboard::spec_column_mask(col as int) == 0
                    && !crate::board::spec_has_line(board.player_bb)
                    && !crate::board::spec_has_line(board.spec_opponent()) && (old(
                    self,
                ).spec_book() == Map::<u64, i8>::empty() || old(self).spec_book_depth()
                    < board.num_moves)) ==> r == Some((-crate::value::spec_value(child)) as i8)
            }),
            r is Some ==> -SCORE_CAP <= r->0 <= SCORE_CAP,
            final(self).spec_book() == old(self).spec_book(),
            final(self).spec_book_depth() == old(self).spec_book_depth(),
    {
        if board.is_open(col) {
            if board.is_winning_move(col) {
                Some(board.position_score(true))
            } else {
                let mut new_board: Board = board;
                proof {
                    crate::board::lemma_play_col_wf(board, col as int);
                    if !crate::board::spec_has_line(board.player_bb)
                        && !crate::board::spec_has_line(board.spec_opponent()) {
                        crate::value::lemma_no_win_no_line(board, col as int);
                        crate::value::lemma_value_bounds(board.spec_play_col(col as int));
                    }
                }
                new_board.play_unchecked(col);
                Some(-self.solve(new_board))
            }
        } else {
            None
        }
    }

    /// Evaluates all the possible moves of a game position, returning the
    /// scores as an array. An element of the array is [`None`] exactly when
    /// the move cannot be played; a move that wins immediately scores the
    /// immediate-win score.
    pub fn evaluate_next(&mut self, game: &crate::game::Game) -> (r: [Option<i8>; 7])
        ensures
            forall|c: int|
                0 <= c < 7 ==> {
                    let b = game.spec_board();
                    &&& ((#[trigger] r[c]) is Some <==> b.spec_is_open(c))
                    &&& ((b.spec_is_open(c) && spec_winning(b.player_bb, b.occupied_bb)
                        & b.spec_possible() & crate::bitboard::spec_column_mask(c) != 0) ==> r[c]
                        == Some((b.spec_pos_score(true)) as i8))
                    &&& ({
                        let child = b.spec_play_col(c);
                        (b.spec_is_open(c) && spec_winning(b.player_bb, b.occupied_bb)
                            & b.spec_possible() & crate::bitboard::spec_column_mask(c) == 0
                            && !crate::board::spec_has_line(child.spec_opponent()) && spec_winning(
                            child.player_bb,
                            child.occupied_bb,
                        ) & child.spec_possible() != 0) ==> r[c] == Some(
                            (-crate::value::spec_value(child)) as i8,
                        )
                    })
                    &&& ((b.spec_is_open(c) && spec_winning(b.player_bb, b.occupied_bb)
                        & b.spec_possible() & crate::bitboard::spec_column_mask(c) == 0
                        && !crate::board::spec_has_line(b.player_bb)
                        && !crate::board::spec_has_line(b.spec_opponent()) && (old(
                        self,
                    ).spec_book() == Map::<u64, i8>::empty() || old(self).spec_book_depth()
                        < b.num_moves)) ==> r[c] == Some(
                        (-crate::value::spec_value(b.spec_play_col(c))) as i8,
                    ))
                    &&& (r[c] is Some ==> -SCORE_CAP <= r[c]->0 <= SCORE_CAP)
                },
    {
        proof {
            use_type_invariant(&*self);
        }
        self.node_count = 0;
        let board: Board = game.board();
        let s0: Option<i8> = self.eval_col(board, 0);
        let s1: Option<i8> = self.eval_col(board, 1);
        let s2: Option<i8> = self.eval_col(board, 2);
        let s3: Option<i8> = self.eval_col(board, 3);
        let s4: Option<i8> = self.eval_col(board, 4);
        let s5: Option<i8> = self.eval_col(board, 5);
        let s6: Option<i8> = self.eval_col(board, 6);
        let r: [Option<i8>; 7] = [s0, s1, s2, s3, s4, s5, s6];
        r
    }

    /// Bundles the per-column scores of a position with its side to move
    /// and move count, for rating and prediction.
    pub fn analyze(&mut self, game: &crate::game::Game) -> (r: Analysis)
        ensures
            r.spec_player() == crate::game::spec_turn(game.spec_board().num_moves),
            r.spec_num_moves() == game.spec_board().num_moves,
            forall|c: int|
                0 <= c < 7 ==> {
                    let b = game.spec_board();
                    &&& ((#[trigger] r.spec_scores()[c]) is Some <==> b.spec_is_open(c))
                    &&& ((b.spec_is_open(c) && spec_winning(b.player_bb, b.occupied_bb)
                        & b.spec_possible() & crate::bitboard::spec_column_mask(c) != 0)
                        ==> r.spec_scores()[c] == Some((b.spec_pos_score(true)) as i8))
                    &&& ({
                        let child = b.spec_play_col(c);
                        (b.spec_is_open(c) && spec_winning(b.player_bb, b.occupied_bb)
                            & b.spec_possible() & crate::bitboard::spec_column_mask(c) == 0
                            && !crate::board::spec_has_line(child.spec_opponent()) && spec_winning(
                            child.player_bb,
                            child.occupied_bb,
                        ) & child.spec_possible() != 0) ==> r.spec_scores()[c] == Some(
                            (-crate::value::spec_value(child)) as i8,
                        )
                    })
                    &&& ((b.spec_is_open(c) && spec_winning(b.player_bb, b.occupied_bb)
                        & b.spec_possible() & crate::bitboard::spec_column_mask(c) == 0
                        && !crate::board::spec_has_line(b.player_bb)
                        && !crate::board::spec_has_line(b.spec_opponent()) && (old(
                        self,
                    ).spec_book() == Map::<u64, i8>::empty() || old(self).spec_book_depth()
                        < b.num_moves)) ==> r.spec_scores()[c] == Some(
                        (-crate::value::spec_value(b.spec_play_col(c))) as i8,
                    ))
                    &&& (r.spec_scores()[c] is Some ==> -SCORE_CAP <= r.spec_scores()[c]->0
                        <= SCORE_CAP)
                },
    {
        let num_moves: u8 = game.num_moves();
        let scores: [Option<i8>; 7] = self.evaluate_next(game);
        let player: Player = game.turn();
        Analysis { scores, player, num_moves }
    }
}

/// How good a move is compared to the best move of the same position.
#[derive(Clone, Copy, Debug, PartialEq, Eq, Structural)]
pub enum Rating {
    Blunder,
    Mistake,
    Inaccuracy,
    Good,
    Best,
}

/// `a` minus `b`, stopped at zero.
pub open spec fn spec_sat_sub(a: int, b: int) -> int {
    if a >= b {
        a - b
    } else {
        0
    }
}

/// The predicted end of the game from a score: who wins, and in how many
/// plies, under optimal play.
pub open spec fn spec_predict(score: i8, num: u8, player: Player) -> Prediction {
    let moves_left = spec_sat_sub(42, num as int);
    if score < 0 {
        (Outcome::Win(player.spec_other()), spec_sat_sub(moves_left / 2 + 1, -score) as u8)
    } else if score == 0 {
        (Outcome::Draw, ((moves_left + 1) / 2) as u8)
    } else {
        (Outcome::Win(player), spec_sat_sub((moves_left + 1) / 2 + 1, score as int) as u8)
    }
}

/// A score weighted by how much of the game has passed, before rescaling.
pub open spec fn spec_balanced(score: i8, num: u8) -> int {
    if score < 0 {
        score - (num + 1) / 2
    } else if score == 0 {
        0
    } else {
        score + num as int / 2
    }
}

/// The balanced score times `1 + 2^(1 - p)`, rounded half away from zero.
pub open spec fn spec_round_mult(balanced: int, p: int) -> int {
    if p <= 0 {
        3 * balanced
    } else {
        let d = vstd::arithmetic::power2::pow2((p - 1) as nat) as int;
        if balanced >= 0 {
            (balanced * (d + 1) + d / 2) / d
        } else {
            -(((-balanced) * (d + 1) + d / 2) / d)
        }
    }
}

/// A value clipped to the score type's range.
pub open spec fn spec_clamp_i8(v: int) -> i8 {
    if v > 127 {
        127i8
    } else if v < -128 {
        -128i8
    } else {
        v as i8
    }
}

/// The amplified score used for rating: the balanced score scaled up the
/// closer the predicted end is, rounded half away from zero and clipped.
pub open spec fn spec_amplified(score: i8, num: u8, player: Player) -> i8 {
    spec_clamp_i8(
        spec_round_mult(spec_balanced(score, num), spec_predict(score, num, player).1 as int),
    )
}

/// The sign of a value.
pub open spec fn spec_signum(v: int) -> int {
    if v > 0 {
        1
    } else if v < 0 {
        -1
    } else {
        0
    }
}

/// The rating of a score against the best score of the same position:
/// the best move itself, or a band by how far its amplified score falls
/// short, with a sign flip never better than an inaccuracy.
pub open spec fn spec_rate(score: i8, best: i8, num: u8, player: Player) -> Rating {
    if score == best {
        Rating::Best
    } else {
        let a = spec_amplified(score, num, player) as int;
        let b = spec_amplified(best, num, player) as int;
        let diff = if a >= b {
            a - b
        } else {
            b - a
        };
        if diff >= 21 {
            Rating::Blunder
        } else if diff >= 14 {
            Rating::Mistake
        } else if diff >= 7 || spec_signum(b) != spec_signum(a) {
            Rating::Inaccuracy
        } else {
            Rating::Good
        }
    }
}

/// The highest score among the first `n` per-column scores.
pub open spec fn spec_best_score(s: Seq<Option<i8>>, n: int) -> Option<i8>
    decreases n,
{
    if n <= 0 {
        None
    } else {
        let prev = spec_best_score(s, n - 1);
        match s[n - 1] {
            None => prev,
            Some(v) => match prev {
                None => Some(v),
                Some(p) => if v > p {
                    Some(v)
                } else {
                    Some(p)
                },
            },
        }
    }
}

/// The columns among the first `n` whose score entry equals `best`.
pub open spec fn spec_best_moves(s: Seq<Option<i8>>, best: Option<i8>, n: int) -> Seq<u8>
    decreases n,
{
    if n <= 0 {
        Seq::empty()
    } else {
        spec_best_moves(s, best, n - 1) + (if s[n - 1] == best {
            seq![(n - 1) as u8]
        } else {
            Seq::empty()
        })
    }
}

/// The per-column scores of a position, together with whose turn it is and
/// how many moves have been made.
pub struct Analysis {
    scores: [Option<i8>; 7],
    player: Player,
    num_moves: u8,
}

impl Analysis {
    /// An analysis never sees more moves than the board holds cells.
    #[verifier::type_invariant]
    spec fn inv(self) -> bool {
        self.num_moves <= 42
    }

    /// The per-column scores.
    pub closed spec fn spec_scores(self) -> Seq<Option<i8>> {
        self.scores@
    }

    /// The side to move.
    pub closed spec fn spec_player(self) -> Player {
        self.player
    }

    /// The number of moves made so far.
    pub closed spec fn spec_num_moves(self) -> u8 {
        self.num_moves
    }

    /// The per-column scores, one entry per column.
    pub fn scores(&self) -> (r: [Option<i8>; 7])
        ensures
            r@ == self.spec_scores(),
    {
        self.scores
    }

    /// The side to move in the analyzed position.
    pub fn player(&self) -> (r: Player)
        ensures
            r == self.spec_player(),
    {
        self.player
    }

    /// The highest score any playable column reaches, or [`None`] when no
    /// column is playable.
    pub fn best_score(&self) -> (r: Option<i8>)
        ensures
            r == spec_best_score(self.spec_scores(), 7),
    {
        let mut best: Option<i8> = None;
        let mut i: usize = 0;
        while i < 7
            invariant
                i <= 7,
                best == spec_best_score(self.spec_scores(), i as int),
            decreases 7 - i,
        {
            match self.scores[i] {
                None => {},
                Some(v) => {
                    best = match best {
                        None => Some(v),
                        Some(p) => if v > p {
                            Some(v)
                        } else {
                            Some(p)
                        },
                    };
                },
            }
            i = i + 1;
        }
        best
    }

    /// Returns a vector of 0-indexed columns representing the moves with
    /// the highest scores that can be played next.
    pub fn best_moves(&self) -> (r: Vec<u8>)
        ensures
            r@ == spec_best_moves(self.spec_scores(), spec_best_score(self.spec_scores(), 7), 7),
    {
        let best: Option<i8> = self.best_score();
        let mut result: Vec<u8> = Vec::new();
        let mut i: usize = 0;
        while i < 7
            invariant
                i <= 7,
                best == spec_best_score(self.spec_scores(), 7),
                result@ == spec_best_moves(self.spec_scores(), best, i as int),
            decreases 7 - i,
        {
            let eq: bool = match (self.scores[i], best) {
                (None, None) => true,
                (Some(a), Some(b)) => a == b,
                _ => false,
            };
            if eq {
                result.push(i as u8);
                proof {
                    assert(result@ =~= spec_best_moves(self.spec_scores(), best, i as int)
                        + seq![i as u8]);
                }
            } else {
                proof {
                    assert(result@ =~= spec_best_moves(self.spec_scores(), best, i as int)
                        + Seq::<u8>::empty());
                }
            }
            i = i + 1;
        }
        result
    }

    /// Predicts the end of the game from a score of this position.
    pub fn predict(&self, score: i8) -> (r: Prediction)
        ensures
            r == spec_predict(score, self.spec_num_moves(), self.spec_player()),
            r.1 <= 22,
    {
        proof {
            use_type_invariant(self);
        }
        let moves_left: u8 = 42 - self.num_moves;
        if score < 0 {
            let mag: u8 = (-(score as i16)) as u8;
            let a: u8 = moves_left / 2 + 1;
            let plies: u8 = if a >= mag {
                a - mag
            } else {
                0
            };
            (Outcome::Win(self.player.other()), plies)
        } else if score == 0 {
            (Outcome::Draw, (moves_left + 1) / 2)
        } else {
            let mag: u8 = score as u8;
            let a: u8 = (moves_left + 1) / 2 + 1;
            let plies: u8 = if a >= mag {
                a - mag
            } else {
                0
            };
            (Outcome::Win(self.player), plies)
        }
    }

    /// Predicts the end of the game after each playable move.
    pub fn predictions(&self) -> (r: [Option<Prediction>; 7])
        ensures
            forall|c: int|
                0 <= c < 7 ==> r[c] == match self.spec_scores()[c] {
                    None => None::<Prediction>,
                    Some(v) => Some(
                        spec_predict(v, self.spec_num_moves(), self.spec_player()),
                    ),
                },
    {
        [
            self.predict_at(0),
            self.predict_at(1),
            self.predict_at(2),
            self.predict_at(3),
            self.predict_at(4),
            self.predict_at(5),
            self.predict_at(6),
        ]
    }

    /// The prediction for one column, if it is playable.
    fn predict_at(&self, i: usize) -> (r: Option<Prediction>)
        requires
            i < 7,
        ensures
            r == match self.spec_scores()[i as int] {
                None => None::<Prediction>,
                Some(v) => Some(spec_predict(v, self.spec_num_moves(), self.spec_player())),
            },
    {
        match self.scores[i] {
            None => None,
            Some(v) => Some(self.predict(v)),
        }
    }

    /// Returns the amplified score used for rating: scores get rescaled so
    /// that quicker outcomes weigh more, with rounding half away from zero.
    pub fn amplified_score(&self, score: i8) -> (r: i8)
        ensures
            r == spec_amplified(score, self.spec_num_moves(), self.spec_player()),
    {
        proof {
            use_type_invariant(self);
        }
        let balanced: i64 = if score < 0 {
            score as i64 - ((self.num_moves as i64 + 1) / 2)
        } else if score == 0 {
            0
        } else {
            score as i64 + self.num_moves as i64 / 2
        };
        let p: u8 = self.predict(score).1;
        let raw: i64 = if p == 0 {
            3 * balanced
        } else {
            let k: u8 = p - 1;
            let mut d: i64 = 1;
            let mut j: u8 = 0;
            proof {
                vstd::arithmetic::power2::lemma2_to64();
            }
            while j < k
                invariant
                    j <= k,
                    k <= 21,
                    d == vstd::arithmetic::power2::pow2(j as nat),
                    1 <= d <= 0x200000,
                decreases k - j,
            {
                proof {
                    vstd::arithmetic::power2::lemma_pow2_unfold((j + 1) as nat);
                    vstd::arithmetic::power2::lemma2_to64();
                }
                d = d * 2;
                j = j + 1;
            }
            proof {
                assert(-149 <= balanced <= 148);
                assert(0 <= balanced ==> balanced * (d + 1) <= 148 * 0x200001) by (nonlinear_arith)
                    requires
                        1 <= d <= 0x200000,
                        balanced <= 148,
                ;
                assert(balanced < 0 ==> (-balanced) * (d + 1) <= 149 * 0x200001)
                    by (nonlinear_arith)
                    requires
                        1 <= d <= 0x200000,
                        -149 <= balanced,
                ;
                assert(0 <= balanced ==> 0 <= balanced * (d + 1)) by (nonlinear_arith)
                    requires
                        1 <= d,
                ;
                assert(balanced < 0 ==> 0 <= (-balanced) * (d + 1)) by (nonlinear_arith)
                    requires
                        1 <= d,
                ;
            }
            if balanced >= 0 {
                (balanced * (d + 1) + d / 2) / d
            } else {
                -(((-balanced) * (d + 1) + d / 2) / d)
            }
        };
        if raw > 127 {
            127
        } else if raw < -128 {
            -128
        } else {
            raw as i8
        }
    }

    /// Rates one score of this position against the best one.
    fn rate(&self, score: i8, best: i8) -> (r: Rating)
        ensures
            r == spec_rate(score, best, self.spec_num_moves(), self.spec_player()),
    {
        if score == best {
            return Rating::Best;
        }
        let a: i16 = self.amplified_score(score) as i16;
        let b: i16 = self.amplified_score(best) as i16;
        let diff: i16 = if a >= b {
            a - b
        } else {
            b - a
        };
        let sa: i16 = if a > 0 {
            1
        } else if a < 0 {
            -1
        } else {
            0
        };
        let sb: i16 = if b > 0 {
            1
        } else if b < 0 {
            -1
        } else {
            0
        };
        if diff >= 21 {
            Rating::Blunder
        } else if diff >= 14 {
            Rating::Mistake
        } else if diff >= 7 || sb != sa {
            Rating::Inaccuracy
        } else {
            Rating::Good
        }
    }

    /// Returns a [`Rating`] for each playable move of the position, or no
    /// ratings at all when nothing is playable.
    pub fn ratings(&self) -> (r: [Option<Rating>; 7])
        ensures
            ({
                let best = spec_best_score(self.spec_scores(), 7);
                match best {
                    None => forall|c: int| 0 <= c < 7 ==> r[c] is None,
                    Some(bv) => forall|c: int|
                        0 <= c < 7 ==> r[c] == match self.spec_scores()[c] {
                            None => None::<Rating>,
                            Some(v) => Some(
                                spec_rate(v, bv, self.spec_num_moves(), self.spec_player()),
                            ),
                        },
                }
            }),
    {
        let best: Option<i8> = self.best_score();
        match best {
            None => [None, None, None, None, None, None, None],
            Some(bv) => [
                self.rate_at(0, bv),
                self.rate_at(1, bv),
                self.rate_at(2, bv),
                self.rate_at(3, bv),
                self.rate_at(4, bv),
                self.rate_at(5, bv),
                self.rate_at(6, bv),
            ],
        }
    }

    /// The rating for one column, if it is playable.
    fn rate_at(&self, i: usize, best: i8) -> (r: Option<Rating>)
        requires
            i < 7,
        ensures
            r == match self.spec_scores()[i as int] {
                None => None::<Rating>,
                Some(v) => Some(spec_rate(v, best, self.spec_num_moves(), self.spec_player())),
            },
    {
        match self.scores[i] {
            None => None,
            Some(v) => Some(self.rate(v, best)),
        }
    }

    /// Returns a vector of 0-indexed columns representing the playable
    /// moves from highest to lowest score; columns with equal scores come
    /// left to right.
    #[verifier::rlimit(60)]
    pub fn sorted_moves(&self) -> (r: Vec<u8>)
        ensures
            forall|k: int|
                0 <= k < r@.len() ==> (#[trigger] r@[k]) < 7 && self.spec_scores()[r@[k] as int]
                    is Some,
            forall|c: int|
                0 <= c < 7 && self.spec_scores()[c] is Some ==> r@.contains(c as u8),
            forall|i: int, j: int|
                0 <= i < j < r@.len() ==> {
                    let si = self.spec_scores()[(#[trigger] r@[i]) as int]->0;
                    let sj = self.spec_scores()[(#[trigger] r@[j]) as int]->0;
                    si > sj || (si == sj && r@[i] < r@[j])
                },
    {
        let mut result: Vec<u8> = Vec::new();
        let mut c: usize = 0;
        while c < 7
            invariant
                c <= 7,
                forall|k: int|
                    0 <= k < result@.len() ==> (#[trigger] result@[k]) < c
                        && self.spec_scores()[result@[k] as int] is Some,
                forall|cc: int|
                    0 <= cc < c && self.spec_scores()[cc] is Some ==> result@.contains(cc as u8),
                forall|i: int, j: int|
                    0 <= i < j < result@.len() ==> {
                        let si = self.spec_scores()[(#[trigger] result@[i]) as int]->0;
                        let sj = self.spec_scores()[(#[trigger] result@[j]) as int]->0;
                        si > sj || (si == sj && result@[i] < result@[j])
                    },
            decreases 7 - c,
        {
            if let Some(sc) = self.scores[c] {
                let ghost before = result@;
                let mut pos: usize = 0;
                let mut scanning: bool = true;
                while scanning && pos < result.len()
                    invariant
                        pos <= result@.len(),
                        result@ == before,
                        c < 7,
                        forall|k: int|
                            0 <= k < result@.len() ==> (#[trigger] result@[k]) < c
                                && self.spec_scores()[result@[k] as int] is Some,
                        forall|k: int|
                            0 <= k < pos ==> self.spec_scores()[(#[trigger] result@[k]) as int]->0
                                >= sc,
                        !scanning ==> pos < result@.len() && self.spec_scores()[result@[
                            pos as int] as int]->0 < sc,
                    decreases result@.len() - pos, (if scanning {
                        1int
                    } else {
                        0int
                    }),
                {
                    let entry: u8 = result[pos];
                    let entry_score: i8 = if let Some(v) = self.scores[entry as usize] {
                        v
                    } else {
                        0
                    };
                    if entry_score >= sc {
                        pos = pos + 1;
                    } else {
                        scanning = false;
                    }
                }
                result.insert(pos, c as u8);
                proof {
                    let s = result@;
                    assert forall|i: int, j: int| 0 <= i < j < s.len() implies {
                        let si = self.spec_scores()[(#[trigger] s[i]) as int]->0;
                        let sj = self.spec_scores()[(#[trigger] s[j]) as int]->0;
                        si > sj || (si == sj && s[i] < s[j])
                    } by {
                        if i < pos {
                            assert(s[i] == before[i]);
                        }
                        if j < pos {
                            assert(s[j] == before[j]);
                        }
                        if i > pos {
                            assert(s[i] == before[i - 1]);
                        }
                        if j > pos {
                            assert(s[j] == before[j - 1]);
                        }
                        if pos < s.len() - 1 && j == pos + 1 {
                        }
                    }
                    assert forall|cc: int|
                        0 <= cc < c + 1 && self.spec_scores()[cc] is Some implies result@.contains(
                        cc as u8) by {
                        if cc < c {
                            let k = choose|k: int| 0 <= k < before.len() && before[k] == cc as u8;
                            if k < pos {
                                assert(result@[k] == cc as u8);
                            } else {
                                assert(result@[k + 1] == cc as u8);
                            }
                        } else {
                            assert(result@[pos as int] == cc as u8);
                        }
                    }
                }
            }
            c = c + 1;
        }
        result
    }
}

} // verus!
