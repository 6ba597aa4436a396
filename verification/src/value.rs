//! The game-theoretic value of a position, as a specification-level
//! function, and the optimality law the search is built around: a move is
//! optimal exactly when the value of the position equals the negated value
//! of the position after the move, and no move does better.

use vstd::prelude::*;

verus! {

use crate::board::{
    Board,
    spec_has_line,
    spec_winning,
    spec_non_losing,
    col_ok,
    col_height,
    lemma_play_col_wf,
    lemma_play_bb_wf,
    lemma_pop_columns,
    lemma_possible_in_board,
    lemma_winning_completes,
    lemma_opponent_in_full,
    lemma_no_escape_keeps_threat,
    lemma_line_needs_winning_cell,
    lemma_bv_single_tz,
};
use crate::bits::lemma_pop_single;
use crate::bitboard::spec_column_mask;
use crate::bitboard::{spec_col, lemma_bit_and};

/// The exact score of a position under optimal play by both sides: positive
/// when the side to move wins, with faster wins scoring higher; zero for a
/// draw; negative when the side to move loses.
pub open spec fn spec_value(b: Board) -> int
    decreases 42 - b.num_moves, 8int,
{
    if spec_has_line(b.spec_opponent()) {
        -((44 - b.num_moves) / 2)
    } else if b.num_moves >= 42 {
        0
    } else {
        spec_best(b, 7)
    }
}

/// The best reply value among the open columns below `c`, or an
/// unreachable floor when none is open.
pub open spec fn spec_best(b: Board, c: int) -> int
    decreases 42 - b.num_moves, (if 0 <= c <= 7 {
        c
    } else {
        0
    }),
    when b.num_moves < 42
{
    if c <= 0 || c > 7 {
        -100
    } else {
        let rest = spec_best(b, c - 1);
        if b.spec_is_open(c - 1) {
            let s = -spec_value(b.spec_play_col(c - 1));
            if s > rest {
                s
            } else {
                rest
            }
        } else {
            rest
        }
    }
}

/// A board that is not full has an open column.
pub proof fn lemma_exists_open(b: Board)
    requires
        b.wf(),
        b.num_moves < 42,
    ensures
        exists|c: int| 0 <= c < 7 && #[trigger] b.spec_is_open(c),
{
    lemma_pop_columns(b.occupied_bb);
    let occ = b.occupied_bb;
    if (exists|c: int| 0 <= c < 7 && #[trigger] spec_col(occ, c) != 63) {
        let c = choose|c: int| 0 <= c < 7 && #[trigger] spec_col(occ, c) != 63;
        crate::board::lemma_open_iff_not_full(b, c);
        assert(b.spec_is_open(c));
    } else {
        assert(spec_col(occ, 0) == 63);
        assert(spec_col(occ, 1) == 63);
        assert(spec_col(occ, 2) == 63);
        assert(spec_col(occ, 3) == 63);
        assert(spec_col(occ, 4) == 63);
        assert(spec_col(occ, 5) == 63);
        assert(spec_col(occ, 6) == 63);
        assert(false);
    }
}

/// The value of any position stays within the piece-count bounds: no side
/// can win faster than by filling its remaining turns.
pub proof fn lemma_value_bounds(b: Board)
    requires
        b.wf(),
    ensures
        -((44 - b.num_moves) / 2) <= spec_value(b) <= (43 - b.num_moves) / 2,
    decreases 42 - b.num_moves, 9int,
{
    lemma_pop_columns(b.occupied_bb);
    if spec_has_line(b.spec_opponent()) {
    } else if b.num_moves >= 42 {
    } else {
        lemma_exists_open(b);
        lemma_best_bounds(b, 7);
        let c = choose|c: int| 0 <= c < 7 && #[trigger] b.spec_is_open(c);
        lemma_best_ge(b, 7, c);
    }
}

/// Every candidate collected by `spec_best` keeps to the value bounds.
proof fn lemma_best_bounds(b: Board, c: int)
    requires
        b.wf(),
        b.num_moves < 42,
        0 <= c <= 7,
    ensures
        spec_best(b, c) == -100 || -((42 - b.num_moves) / 2) <= spec_best(b, c) <= (43
            - b.num_moves) / 2,
    decreases 42 - b.num_moves, c,
{
    if c > 0 {
        lemma_best_bounds(b, c - 1);
        if b.spec_is_open(c - 1) {
            lemma_play_col_wf(b, c - 1);
            lemma_value_bounds(b.spec_play_col(c - 1));
        }
    }
}

/// The best reply value is at least the reply value of any open column it
/// has seen.
pub proof fn lemma_best_ge(b: Board, c: int, d: int)
    requires
        b.wf(),
        b.num_moves < 42,
        0 <= d < c <= 7,
        b.spec_is_open(d),
    ensures
        spec_best(b, c) >= -spec_value(b.spec_play_col(d)),
        spec_best(b, c) > -100,
    decreases 42 - b.num_moves, c,
{
    lemma_play_col_wf(b, d);
    lemma_value_bounds(b.spec_play_col(d));
    if d == c - 1 {
        lemma_best_mono(b, c);
    } else {
        lemma_best_ge(b, c - 1, d);
        lemma_best_mono(b, c);
    }
}

/// Collecting one more column never lowers the best reply value.
proof fn lemma_best_mono(b: Board, c: int)
    requires
        b.wf(),
        b.num_moves < 42,
        0 < c <= 7,
    ensures
        spec_best(b, c) >= spec_best(b, c - 1),
        b.spec_is_open(c - 1) ==> spec_best(b, c) >= -spec_value(b.spec_play_col(c - 1)),
{
}

/// The best reply value is attained by some open column.
proof fn lemma_best_attained(b: Board, c: int)
    requires
        b.wf(),
        b.num_moves < 42,
        0 <= c <= 7,
        spec_best(b, c) > -100,
    ensures
        exists|d: int|
            0 <= d < c && #[trigger] b.spec_is_open(d) && spec_best(b, c) == -spec_value(
                b.spec_play_col(d),
            ),
    decreases c,
{
    if c > 0 {
        if b.spec_is_open(c - 1) && spec_best(b, c) == -spec_value(b.spec_play_col(c - 1)) {
        } else {
            lemma_best_attained(b, c - 1);
        }
    }
}

/// Optimal play: no move beats the value of the position, and some move
/// attains it. A column is an optimal move exactly when the position's
/// value equals the negated value of the position after playing it.
pub proof fn lemma_value_optimal(b: Board)
    requires
        b.wf(),
        !spec_has_line(b.spec_opponent()),
        b.num_moves < 42,
    ensures
        forall|c: int|
            0 <= c < 7 && #[trigger] b.spec_is_open(c) ==> spec_value(b) >= -spec_value(
                b.spec_play_col(c),
            ),
        exists|c: int|
            0 <= c < 7 && #[trigger] b.spec_is_open(c) && spec_value(b) == -spec_value(
                b.spec_play_col(c),
            ),
{
    assert forall|c: int| 0 <= c < 7 && #[trigger] b.spec_is_open(c) implies spec_value(b)
        >= -spec_value(b.spec_play_col(c)) by {
        lemma_best_ge(b, 7, c);
    }
    lemma_exists_open(b);
    let c0 = choose|c: int| 0 <= c < 7 && #[trigger] b.spec_is_open(c);
    lemma_best_ge(b, 7, c0);
    lemma_best_attained(b, 7);
}

/// A position where the side to move can complete a line on an open column
/// has exactly the immediate-win value: the mover wins with the piece in
/// hand, and nothing scores higher.
pub proof fn lemma_value_can_win(b: Board)
    requires
        b.wf(),
        !spec_has_line(b.spec_opponent()),
        spec_winning(b.player_bb, b.occupied_bb) & b.spec_possible() != 0,
    ensures
        b.num_moves < 42,
        spec_value(b) == (43 - b.num_moves) / 2,
{
    let occ = b.occupied_bb;
    let pl = b.player_bb;
    let w = spec_winning(pl, occ) & b.spec_possible();
    vstd::std_specs::bits::axiom_u64_trailing_zeros(w);
    let k = vstd::std_specs::bits::u64_trailing_zeros(w) as u64;
    lemma_bit_and(spec_winning(pl, occ), b.spec_possible(), k);
    lemma_possible_in_board(b, k);
    let c = (k / 7) as int;
    lemma_play_col_wf(b, c);
    lemma_play_bb_wf(b, b.spec_move_bit(c));
    let child = b.spec_play_col(c);
    lemma_opponent_in_full(b);
    lemma_winning_completes(pl, occ, k);
    assert(child.spec_opponent() == pl | (1u64 << k));
    assert(spec_has_line(child.spec_opponent()));
    assert(spec_value(child) == -((44 - child.num_moves) / 2));
    lemma_best_ge(b, 7, c);
    lemma_value_bounds(b);
}

/// A move that is not an immediately winning move never completes the
/// mover's line.
pub proof fn lemma_no_win_no_line(b: Board, c: int)
    requires
        b.wf(),
        0 <= c < 7,
        b.spec_is_open(c),
        !spec_has_line(b.player_bb),
        spec_winning(b.player_bb, b.occupied_bb) & b.spec_possible() & spec_column_mask(c) == 0,
    ensures
        !spec_has_line(b.spec_play_col(c).spec_opponent()),
{
    let m = b.spec_move_bit(c);
    let p = b.spec_possible();
    let w = spec_winning(b.player_bb, b.occupied_bb);
    lemma_play_col_wf(b, c);
    lemma_play_bb_wf(b, m);
    lemma_pop_single(m);
    vstd::std_specs::bits::axiom_u64_trailing_zeros(m);
    let k = vstd::std_specs::bits::u64_trailing_zeros(m) as u64;
    lemma_bv_single_tz(m, k);
    lemma_bit_and(p, spec_column_mask(c), k);
    if spec_has_line((b.player_bb | (1u64 << k)) as u64) {
        lemma_line_needs_winning_cell(b, k);
        lemma_bit_and(w, p, k);
        lemma_bit_and(w & p, spec_column_mask(c), k);
    }
    assert(b.spec_play_col(c).spec_opponent() == b.player_bb | m);
}

/// When no move survives the pruning of a position neither side has won
/// and the mover cannot win at once, the mover loses as slowly as the
/// loser can make it: the position's exact value is the fastest loss.
pub proof fn lemma_value_all_moves_lose(b: Board)
    requires
        b.wf(),
        b.num_moves < 42,
        !spec_has_line(b.player_bb),
        !spec_has_line(b.spec_opponent()),
        spec_winning(b.player_bb, b.occupied_bb) & b.spec_possible() == 0,
        spec_non_losing(b) == 0,
    ensures
        spec_value(b) == -((42 - b.num_moves) / 2),
{
    assert forall|c: int| 0 <= c < 7 && #[trigger] b.spec_is_open(c) implies spec_value(
        b.spec_play_col(c),
    ) == (42 - b.num_moves) / 2 by {
        lemma_play_col_wf(b, c);
        crate::board::lemma_bv_andnot(spec_column_mask(c), 0, 0);
        lemma_no_win_no_line(b, c);
        lemma_no_escape_keeps_threat(b, c);
        lemma_value_can_win(b.spec_play_col(c));
    }
    lemma_exists_open(b);
    let c0 = choose|c: int| 0 <= c < 7 && #[trigger] b.spec_is_open(c);
    lemma_best_ge(b, 7, c0);
    lemma_best_attained(b, 7);
}

/// The sound lower bound on the value of a position where no move loses
/// at once: the mover survives one full exchange, so the earliest loss is
/// two plies later than the soonest conceivable one.
pub open spec fn spec_min_bound(n: int) -> int {
    if n <= 40 {
        -((40 - n) / 2)
    } else {
        0
    }
}

/// A position whose opponent holds no line is worth at least the fastest
/// loss from here.
pub proof fn lemma_value_lower_no_line(b: Board)
    requires
        b.wf(),
        !spec_has_line(b.spec_opponent()),
    ensures
        spec_value(b) >= -((42 - b.num_moves) / 2),
{
    lemma_pop_columns(b.occupied_bb);
    if b.num_moves < 42 {
        lemma_exists_open(b);
        let c = choose|c: int| 0 <= c < 7 && #[trigger] b.spec_is_open(c);
        lemma_play_col_wf(b, c);
        lemma_value_bounds(b.spec_play_col(c));
        lemma_best_ge(b, 7, c);
    }
}

/// Every candidate reply bounded above bounds the best reply.
pub proof fn lemma_best_le(b: Board, c: int, bound: int)
    requires
        b.wf(),
        b.num_moves < 42,
        0 <= c <= 7,
        forall|d: int|
            0 <= d < 7 && #[trigger] b.spec_is_open(d) ==> -spec_value(b.spec_play_col(d))
                <= bound,
    ensures
        spec_best(b, c) == -100 || spec_best(b, c) <= bound,
    decreases c,
{
    if c > 0 {
        lemma_best_le(b, c - 1, bound);
    }
}

/// A position where the side to move cannot win at once is worth strictly
/// less than an immediate win: every reply leaves the opponent at least
/// the fastest remaining loss.
pub proof fn lemma_value_upper_cant_win(b: Board)
    requires
        b.wf(),
        !spec_has_line(b.player_bb),
        !spec_has_line(b.spec_opponent()),
        spec_winning(b.player_bb, b.occupied_bb) & b.spec_possible() == 0,
    ensures
        b.num_moves < 42 ==> spec_value(b) <= (41 - b.num_moves) / 2,
        b.num_moves >= 42 ==> spec_value(b) == 0,
    decreases 42 - b.num_moves,
{
    lemma_pop_columns(b.occupied_bb);
    if b.num_moves < 42 {
        assert forall|d: int| 0 <= d < 7 && #[trigger] b.spec_is_open(d) implies -spec_value(
            b.spec_play_col(d),
        ) <= (41 - b.num_moves) / 2 by {
            crate::board::lemma_bv_andnot(spec_column_mask(d), 0, 0);
            lemma_no_win_no_line(b, d);
            lemma_play_col_wf(b, d);
            lemma_value_lower_no_line(b.spec_play_col(d));
        }
        lemma_best_le(b, 7, (41 - b.num_moves) / 2);
        lemma_exists_open(b);
        let c0 = choose|c: int| 0 <= c < 7 && #[trigger] b.spec_is_open(c);
        lemma_best_ge(b, 7, c0);
    }
}

/// A position with a surviving move is worth at least the sound lower
/// bound: the move leaves the opponent unable to win at once, so the
/// opponent in turn cannot do better than the fastest loss left to them.
pub proof fn lemma_value_survives(b: Board)
    requires
        b.wf(),
        crate::board::spec_search_ok(b),
        b.num_moves < 42,
        spec_non_losing(b) != 0,
    ensures
        spec_value(b) >= spec_min_bound(b.num_moves as int),
{
    let nlm = spec_non_losing(b);
    vstd::std_specs::bits::axiom_u64_trailing_zeros(nlm);
    let k = vstd::std_specs::bits::u64_trailing_zeros(nlm) as u64;
    // the surviving move sits in some column
    crate::board::lemma_nlm_in_board(b, k);
    let c = (k / 7) as int;
    crate::board::lemma_nlm_move(b, c);
    lemma_play_col_wf(b, c);
    let child = b.spec_play_col(c);
    crate::board::lemma_bv_andnot(spec_column_mask(c), 0, 0);
    lemma_no_win_no_line(b, c);
    crate::board::lemma_nlm_child_safe(b, c);
    if child.num_moves < 42 {
        lemma_value_upper_cant_win(child);
    }
    lemma_best_ge(b, 7, c);
}

/// A position with two distinct open columns has at least two empty cells.
pub proof fn lemma_two_opens_cap(b: Board, c: int, d: int)
    requires
        b.wf(),
        0 <= c < 7,
        0 <= d < 7,
        c != d,
        b.spec_is_open(c),
        b.spec_is_open(d),
    ensures
        b.num_moves <= 40,
{
    lemma_pop_columns(b.occupied_bb);
    crate::board::lemma_open_iff_not_full(b, c);
    crate::board::lemma_open_iff_not_full(b, d);
    assert(col_height(crate::bitboard::spec_col(b.occupied_bb, c)) <= 5);
    assert(col_height(crate::bitboard::spec_col(b.occupied_bb, d)) <= 5);
}

} // verus!
